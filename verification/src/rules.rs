//! Firewall rules and flow keys shared by the packet path and the control path.
use vstd::prelude::*;

verus! {

/// Capacity of the rule table.
pub const MAX_RULES: usize = 256;

/// Protocol number that matches every protocol.
pub const PROTO_ANY: u8 = 255;

/// What a matching rule does with a packet.
#[derive(Clone, Copy, Debug, PartialEq, Eq, Structural)]
pub enum Action {
    Allow,
    Drop,
}

impl Action {
    /// The wire code of the action, as stored in a rule.
    pub open spec fn spec_code(self) -> u8 {
        match self {
            Action::Allow => 0,
            Action::Drop => 1,
        }
    }

    pub fn code(self) -> (r: u8)
        ensures
            r == self.spec_code(),
    {
        match self {
            Action::Allow => 0,
            Action::Drop => 1,
        }
    }
}

/// IP protocol numbers that a rule may name.
#[derive(Clone, Copy, Debug, PartialEq, Eq, Structural)]
pub enum Protocol {
    ICMP,
    TCP,
    UDP,
    GRE,
    ESP,
    AH,
    SCTP,
    Any,
}

impl Protocol {
    /// The IANA protocol number (255 stands for "any protocol").
    pub open spec fn spec_number(self) -> u8 {
        match self {
            Protocol::ICMP => 1,
            Protocol::TCP => 6,
            Protocol::UDP => 17,
            Protocol::GRE => 47,
            Protocol::ESP => 50,
            Protocol::AH => 51,
            Protocol::SCTP => 132,
            Protocol::Any => 255,
        }
    }

    pub fn number(self) -> (r: u8)
        ensures
            r == self.spec_number(),
    {
        match self {
            Protocol::ICMP => 1,
            Protocol::TCP => 6,
            Protocol::UDP => 17,
            Protocol::GRE => 47,
            Protocol::ESP => 50,
            Protocol::AH => 51,
            Protocol::SCTP => 132,
            Protocol::Any => 255,
        }
    }
}

/// The fields of a packet that rules are matched against.
#[derive(Clone, Copy, Debug, PartialEq, Eq, Structural)]
pub struct FlowKey {
    pub src_ip: u32,
    pub dest_ip: u32,
    pub src_port: u16,
    pub dest_port: u16,
    pub protocol: u8,
}

/// One entry of the rule table. A zero mask, a zero port and protocol 255
/// are wildcards.
#[derive(Clone, Copy, Debug, PartialEq, Eq, Structural)]
pub struct Rule {
    pub src_ip: u32,
    pub src_mask: u32,
    pub dest_ip: u32,
    pub dest_mask: u32,
    pub src_port: u16,
    pub dest_port: u16,
    pub protocol: u8,
    pub action: u8,
}

/// The rule whose fields are all zero: the content of an unused slot.
pub open spec fn zero_rule() -> Rule {
    Rule {
        src_ip: 0,
        src_mask: 0,
        dest_ip: 0,
        dest_mask: 0,
        src_port: 0,
        dest_port: 0,
        protocol: 0,
        action: 0,
    }
}

pub fn empty_rule() -> (r: Rule)
    ensures
        r == zero_rule(),
{
    Rule {
        src_ip: 0,
        src_mask: 0,
        dest_ip: 0,
        dest_mask: 0,
        src_port: 0,
        dest_port: 0,
        protocol: 0,
        action: 0,
    }
}

/// The value of four bytes read in network (big-endian) order.
pub open spec fn be_u32(b: [u8; 4]) -> u32 {
    (b[0] as int * 0x1000000 + b[1] as int * 0x10000 + b[2] as int * 0x100 + b[3] as int) as u32
}

/// Reads an IPv4 address given as four octets in network order.
pub fn ipv4_bytes_to_u32(ip: [u8; 4]) -> (r: u32)
    ensures
        r == be_u32(ip),
        r as int == ip[0] as int * 0x1000000 + ip[1] as int * 0x10000 + ip[2] as int * 0x100
            + ip[3] as int,
{
    (ip[0] as u32) * 0x1000000 + (ip[1] as u32) * 0x10000 + (ip[2] as u32) * 0x100 + (ip[3] as u32)
}

/// Bit `i` (0 is the least significant) of `x`.
pub open spec fn bit(x: u32, i: u32) -> bool {
    (x >> i) & 1u32 == 1u32
}

/// `m` is the netmask of a prefix of length `prefix`: its `prefix` high bits
/// are set and the others are clear.
pub open spec fn is_prefix_mask(m: u32, prefix: u32) -> bool {
    forall|i: u32| i < 32 ==> #[trigger] bit(m, i) == (i + prefix >= 32)
}

/// The netmask of a prefix of length `p` (at most 32).
pub open spec fn prefix_mask(p: nat) -> u32 {
    if p == 0 {
        0
    } else {
        (!0u32) << ((32 - p) as u32)
    }
}

/// Compute a bitmask from a CIDR prefix length (0..=32).
/// e.g. prefix_to_mask(24) => 0xFFFFFF00
pub fn prefix_to_mask(prefix: u8) -> (r: u32)
    requires
        prefix <= 32,
    ensures
        r == prefix_mask(prefix as nat),
        is_prefix_mask(r, prefix as u32),
        prefix == 0 ==> r == 0,
        prefix == 32 ==> r == 0xffff_ffffu32,
{
    if prefix == 0 {
        assert forall|i: u32| i < 32 implies #[trigger] bit(0u32, i) == (i + 0 >= 32) by {
            assert((0u32 >> i) & 1u32 == 0u32) by (bit_vector);
        }
        0
    } else {
        let p: u32 = prefix as u32;
        let r: u32 = !0u32 << (32 - p);
        assert forall|i: u32| i < 32 implies #[trigger] bit(r, i) == (i + p >= 32) by {
            assert(1 <= p <= 32 && i < 32 && r == !0u32 << ((32 - p) as u32) ==> (((r >> i) & 1u32
                == 1u32) == (i + p >= 32))) by (bit_vector);
        }
        assert(p == 32 && r == !0u32 << ((32 - p) as u32) ==> r == 0xffff_ffffu32) by (bit_vector);
        r
    }
}

/// A rule with every field zero is an unused slot.
pub fn is_empty_rule(rule: &Rule) -> (r: bool)
    ensures
        r == (*rule == zero_rule()),
{
    rule.src_ip == 0 && rule.src_mask == 0 && rule.dest_ip == 0 && rule.dest_mask == 0
        && rule.src_port == 0 && rule.dest_port == 0 && rule.protocol == 0 && rule.action == 0
}

/// `addr` lies in the network `net`/`mask`, or the mask is the wildcard 0.
pub open spec fn addr_in(mask: u32, net: u32, addr: u32) -> bool {
    mask == 0 || addr & mask == net & mask
}

/// A rule matches a flow when every field that is not a wildcard agrees.
pub open spec fn flow_matches(rule: Rule, key: FlowKey) -> bool {
    &&& (rule.protocol == PROTO_ANY || rule.protocol == key.protocol)
    &&& (rule.src_port == 0 || rule.src_port == key.src_port)
    &&& (rule.dest_port == 0 || rule.dest_port == key.dest_port)
    &&& addr_in(rule.src_mask, rule.src_ip, key.src_ip)
    &&& addr_in(rule.dest_mask, rule.dest_ip, key.dest_ip)
}

pub fn rule_matches(rule: &Rule, key: &FlowKey) -> (r: bool)
    ensures
        r == flow_matches(*rule, *key),
{
    if rule.protocol != PROTO_ANY && rule.protocol != key.protocol {
        return false;
    }
    if rule.src_port != 0 && rule.src_port != key.src_port {
        return false;
    }
    if rule.dest_port != 0 && rule.dest_port != key.dest_port {
        return false;
    }
    if rule.src_mask != 0 && (key.src_ip & rule.src_mask) != (rule.src_ip & rule.src_mask) {
        return false;
    }
    if rule.dest_mask != 0 && (key.dest_ip & rule.dest_mask) != (rule.dest_ip & rule.dest_mask) {
        return false;
    }
    true
}

/// A rule whose protocol, ports and masks are all wildcards matches every flow.
pub proof fn lemma_wildcard_rule_matches_all(rule: Rule, key: FlowKey)
    requires
        rule.protocol == PROTO_ANY,
        rule.src_port == 0,
        rule.dest_port == 0,
        rule.src_mask == 0,
        rule.dest_mask == 0,
    ensures
        flow_matches(rule, key),
{
}

/// A rule matches a flow exactly when each of its five restrictions, taken
/// alone with every other field a wildcard, matches it.
pub proof fn lemma_match_by_parts(r: Rule, key: FlowKey)
    ensures
        flow_matches(r, key) == (flow_matches(
            Rule { src_ip: 0, src_mask: 0, dest_ip: 0, dest_mask: 0, src_port: 0, dest_port: 0, ..r },
            key,
        ) && flow_matches(
            Rule { src_ip: 0, src_mask: 0, dest_ip: 0, dest_mask: 0, dest_port: 0, protocol: PROTO_ANY, ..r },
            key,
        ) && flow_matches(
            Rule { src_ip: 0, src_mask: 0, dest_ip: 0, dest_mask: 0, src_port: 0, protocol: PROTO_ANY, ..r },
            key,
        ) && flow_matches(
            Rule { dest_ip: 0, dest_mask: 0, src_port: 0, dest_port: 0, protocol: PROTO_ANY, ..r },
            key,
        ) && flow_matches(
            Rule { src_ip: 0, src_mask: 0, src_port: 0, dest_port: 0, protocol: PROTO_ANY, ..r },
            key,
        )),
{
}

/// The protocol of a rule is compared with the flow's protocol; 255 matches
/// every protocol.
pub proof fn lemma_protocol_restriction(r: Rule, key: FlowKey)
    requires
        r.src_mask == 0,
        r.dest_mask == 0,
        r.src_port == 0,
        r.dest_port == 0,
    ensures
        flow_matches(r, key) == (r.protocol == 255 || r.protocol == key.protocol),
{
}

/// The source port of a rule is compared with the flow's source port (and
/// with nothing else); 0 matches every port.
pub proof fn lemma_src_port_restriction(r: Rule, key: FlowKey)
    requires
        r.src_mask == 0,
        r.dest_mask == 0,
        r.dest_port == 0,
        r.protocol == 255,
    ensures
        flow_matches(r, key) == (r.src_port == 0 || r.src_port == key.src_port),
{
}

/// The destination port of a rule is compared with the flow's destination
/// port (and with nothing else); 0 matches every port.
pub proof fn lemma_dest_port_restriction(r: Rule, key: FlowKey)
    requires
        r.src_mask == 0,
        r.dest_mask == 0,
        r.src_port == 0,
        r.protocol == 255,
    ensures
        flow_matches(r, key) == (r.dest_port == 0 || r.dest_port == key.dest_port),
{
}

/// The source network of a rule holds the flow's source address: the two
/// agree on the bits that the mask sets; mask 0 holds every address.
pub proof fn lemma_src_net_restriction(r: Rule, key: FlowKey)
    requires
        r.dest_mask == 0,
        r.src_port == 0,
        r.dest_port == 0,
        r.protocol == 255,
    ensures
        flow_matches(r, key) == (r.src_mask == 0 || key.src_ip & r.src_mask == r.src_ip
            & r.src_mask),
{
}

/// The destination network of a rule holds the flow's destination address;
/// mask 0 holds every address.
pub proof fn lemma_dest_net_restriction(r: Rule, key: FlowKey)
    requires
        r.src_mask == 0,
        r.src_port == 0,
        r.dest_port == 0,
        r.protocol == 255,
    ensures
        flow_matches(r, key) == (r.dest_mask == 0 || key.dest_ip & r.dest_mask == r.dest_ip
            & r.dest_mask),
{
}

/// A host rule (all 32 mask bits) for a destination matches exactly the
/// flows to that address.
pub proof fn lemma_dest_host_rule(r: Rule, key: FlowKey)
    requires
        r.src_mask == 0,
        r.src_port == 0,
        r.dest_port == 0,
        r.protocol == 255,
        r.dest_mask == 0xffff_ffffu32,
    ensures
        flow_matches(r, key) == (key.dest_ip == r.dest_ip),
{
    let a = key.dest_ip;
    let b = r.dest_ip;
    assert((a & 0xffff_ffffu32 == b & 0xffff_ffffu32) == (a == b)) by (bit_vector);
}

} // verus!

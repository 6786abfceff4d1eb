//! Properties that tie the control path's rule table to the packet path's
//! decisions.
use vstd::prelude::*;

use crate::command::{spec_rule_target_to_spec, BlockProtocol, RuleSpec, RuleTargetModel};
use crate::firewall::{decided_action, first_match_from, lemma_first_match_is_first, spec_handle};
use crate::rules::{
    addr_in, flow_matches, prefix_mask, zero_rule, Action, FlowKey, Rule, MAX_RULES,
};
use crate::table::{
    active, lemma_listed, lemma_swap_remove_multiset, rule_of, spec_insert, spec_list, spec_remove,
    spec_remove_all, table_wf, tidy, RuleTableModel,
};
use crate::util::spec_parse_cidr;

verus! {

/// Extending the scanned range by one slot adds that slot as a last
/// candidate.
proof fn lemma_first_match_extend(s: Seq<Rule>, i: int, c: int, key: FlowKey)
    requires
        0 <= i <= c,
        c < s.len(),
    ensures
        first_match_from(s, i, c + 1, key) == match first_match_from(s, i, c, key) {
            Some(j) => Some(j),
            None => if flow_matches(s[c], key) {
                Some(c)
            } else {
                None
            },
        },
    decreases c - i,
{
    if i < c {
        lemma_first_match_extend(s, i + 1, c, key);
    } else {
        assert(first_match_from(s, c + 1, c + 1, key) is None);
    }
}

/// Slots at or past `c` do not change a scan that stops at `c`.
proof fn lemma_first_match_frame(s: Seq<Rule>, s2: Seq<Rule>, i: int, c: int, key: FlowKey)
    requires
        0 <= i <= c,
        c <= s.len(),
        c <= s2.len(),
        forall|k: int| 0 <= k < c ==> s[k] == s2[k],
    ensures
        first_match_from(s, i, c, key) == first_match_from(s2, i, c, key),
    decreases c - i,
{
    if i < c {
        lemma_first_match_frame(s, s2, i + 1, c, key);
    }
}

/// An empty table lets every flow through: with no active rule, the
/// decision is 0 (allow).
pub proof fn lemma_empty_table_allows(rules: Seq<Rule>, key: FlowKey)
    ensures
        decided_action(rules, 0, key) == 0,
{
}

/// After every rule is removed, the packet path allows every flow.
pub proof fn lemma_remove_all_allows(m: RuleTableModel, key: FlowKey)
    ensures
        decided_action(spec_remove_all(m).slots, spec_remove_all(m).count, key) == 0,
{
}

/// A rule appended to the table decides only the flows that no rule before
/// it decides: for those it gives its own action if it matches them, and
/// every other flow keeps the decision it had.
pub proof fn lemma_insert_decides_only_new_flows(m: RuleTableModel, rule: Rule, key: FlowKey)
    requires
        table_wf(m),
        m.count < MAX_RULES,
    ensures
        spec_insert(m, rule).0 is Ok,
        decided_action(spec_insert(m, rule).1.slots, spec_insert(m, rule).1.count, key) == match first_match_from(
            m.slots,
            0,
            m.count as int,
            key,
        ) {
            Some(j) => m.slots[j].action,
            None => if flow_matches(rule, key) {
                rule.action
            } else {
                0
            },
        },
{
    let c = m.count as int;
    let s2 = m.slots.update(c, rule);
    lemma_first_match_frame(m.slots, s2, 0, c, key);
    lemma_first_match_extend(s2, 0, c, key);
    crate::firewall::lemma_first_match_is_first(m.slots, 0, c, key);
}

/// The rule that a block or allow command installs for a target.
pub open spec fn installed_rule(spec: RuleSpec, action: Action) -> Rule {
    rule_of(
        spec.src_ip,
        spec.src_mask,
        spec.src_port,
        spec.dest_ip,
        spec.dest_mask,
        spec.dest_port,
        spec.protocol.spec_protocol(),
        action,
    )
}

/// The rule installed for `from <ip|cidr>` matches exactly the flows whose
/// source lies in that network, whatever their ports and protocol.
pub proof fn lemma_from_rule_matches(ip: Seq<char>, action: Action, key: FlowKey)
    requires
        spec_rule_target_to_spec(RuleTargetModel::FromIp { ip }) is Ok,
    ensures
        ({
            let spec = spec_rule_target_to_spec(RuleTargetModel::FromIp { ip })->Ok_0.0;
            flow_matches(installed_rule(spec, action), key) == addr_in(
                spec.src_mask,
                spec.src_ip,
                key.src_ip,
            )
        }),
{
}

/// The rule installed for `port <port> [proto <p>] [from <net>]` matches
/// exactly the flows to that destination port, of that protocol (any
/// protocol for `any`), whose source lies in the network (any source when
/// none is given).
pub proof fn lemma_port_rule_matches(
    port: u16,
    protocol: BlockProtocol,
    src_ip: Option<Seq<char>>,
    action: Action,
    key: FlowKey,
)
    requires
        port != 0,
        spec_rule_target_to_spec(RuleTargetModel::Port { port, protocol, src_ip }) is Ok,
    ensures
        ({
            let spec = spec_rule_target_to_spec(RuleTargetModel::Port { port, protocol, src_ip })->Ok_0.0;
            flow_matches(installed_rule(spec, action), key) == (key.dest_port == port && (
            protocol == BlockProtocol::Any || key.protocol == protocol.spec_protocol().spec_number())
                && addr_in(spec.src_mask, spec.src_ip, key.src_ip))
        }),
{
}

/// A block rule drops the flows it matches unless an earlier rule already
/// decides them: once `block ...` has been added to a table in which no
/// active rule matches a flow, the packet path drops that flow exactly when
/// the new rule matches it.
pub proof fn lemma_block_drops(m: RuleTableModel, spec: RuleSpec, key: FlowKey)
    requires
        table_wf(m),
        m.count < MAX_RULES,
        first_match_from(m.slots, 0, m.count as int, key) is None,
    ensures
        ({
            let m1 = spec_insert(m, installed_rule(spec, Action::Drop)).1;
            (decided_action(m1.slots, m1.count, key) == 1) == flow_matches(
                installed_rule(spec, Action::Drop),
                key,
            )
        }),
{
    lemma_insert_decides_only_new_flows(m, installed_rule(spec, Action::Drop), key);
}

/// The network that `parse_cidr` gives is in normal form: its host bits are
/// clear, so the address and the network compare equal under the mask.
pub proof fn lemma_parsed_network_normal(s: Seq<char>)
    requires
        spec_parse_cidr(s) is Ok,
    ensures
        ({
            let (a, m) = spec_parse_cidr(s)->Ok_0;
            a & m == a
        }),
{
    let (a, m) = spec_parse_cidr(s)->Ok_0;
    match crate::text::first_index(s, '/') {
        Some(k) => {
            let x = crate::text::parse_ipv4(s.take(k))->Some_0;
            let p = crate::text::parse_uint(s.skip(k + 1), 255)->Ok_0;
            let pm = prefix_mask(p);
            assert((x & pm) & pm == x & pm) by (bit_vector);
        },
        None => {
            if a == 0 {
                assert(0u32 & 0u32 == 0u32) by (bit_vector);
            } else {
                assert(a & 0xffff_ffffu32 == a) by (bit_vector);
            }
        },
    }
}

/// Removing the rule just appended undoes the insert, in a table whose
/// unused slots are zero (as the maps keep them).
pub proof fn lemma_remove_undoes_insert(m: RuleTableModel, rule: Rule)
    requires
        table_wf(m),
        tidy(m),
        m.count < MAX_RULES,
    ensures
        spec_remove(spec_insert(m, rule).1, m.count) == (Ok::<(), crate::table::TableError>(()), m),
{
    let c = m.count as int;
    assert(m.slots[c] == zero_rule());
    let m1 = spec_insert(m, rule).1;
    assert(m1.slots.update(c, m1.slots[c]).update(c, zero_rule()) =~= m.slots);
}

/// Removing an active rule deletes exactly that rule: the active rules
/// afterwards are those before, less one copy of the removed rule (the
/// last one takes its place, so their order changes).
pub proof fn lemma_remove_deletes_one(m: RuleTableModel, index: u32)
    requires
        table_wf(m),
        m.count <= MAX_RULES,
        index < m.count,
    ensures
        spec_remove(m, index).0 is Ok,
        spec_remove(m, index).1.count == m.count - 1,
        active(spec_remove(m, index).1).to_multiset() =~= active(m).to_multiset().remove(
            m.slots[index as int],
        ),
{
    let m1 = spec_remove(m, index).1;
    let a = active(m);
    assert(active(m1) =~= a.update(index as int, a.last()).drop_last());
    lemma_swap_remove_multiset(a, index as int);
}

/// After every rule is removed, the listing is empty, filtered or not.
pub proof fn lemma_remove_all_lists_nothing(m: RuleTableModel, filter: Option<u32>)
    ensures
        spec_list(spec_remove_all(m), filter).len() == 0,
{
}

// ---------------------------------------------------------------------------
// The packet path, read from the bytes of a frame.
// ---------------------------------------------------------------------------

/// The big-endian value of the four bytes of `p` from `at` on.
pub open spec fn be32_at(p: Seq<u8>, at: int) -> u32 {
    (p[at] as int * 0x1000000 + p[at + 1] as int * 0x10000 + p[at + 2] as int * 0x100 + p[at
        + 3] as int) as u32
}

/// The big-endian value of the two bytes of `p` from `at` on.
pub open spec fn be16_at(p: Seq<u8>, at: int) -> u16 {
    (p[at] as int * 256 + p[at + 1] as int) as u16
}

/// A port of a TCP (6) or UDP (17) frame read at `at` (34 for the source,
/// 36 for the destination: right after a 14-byte Ethernet and a 20-byte
/// IPv4 header); 0 for any other protocol, whose frames carry no ports.
pub open spec fn port_at(p: Seq<u8>, at: int) -> u16 {
    if p[23] == 6 || p[23] == 17 {
        be16_at(p, at)
    } else {
        0
    }
}

/// An Ethernet frame with EtherType 0x0800 that holds a whole IPv4 header,
/// and a whole TCP or UDP header when byte 23 names one of those.
pub open spec fn whole_ipv4_frame(p: Seq<u8>) -> bool {
    &&& p.len() >= 34
    &&& p[12] == 0x08
    &&& p[13] == 0x00
    &&& (p[23] == 6 ==> p.len() >= 54)
    &&& (p[23] == 17 ==> p.len() >= 42)
}

/// The flow of a frame as its header fields give it: source address at
/// bytes 26..30, destination address at 30..34, protocol at byte 23, ports
/// at 34..36 and 36..38.
pub open spec fn frame_flow(p: Seq<u8>) -> FlowKey {
    FlowKey {
        src_ip: be32_at(p, 26),
        dest_ip: be32_at(p, 30),
        src_port: port_at(p, 34),
        dest_port: port_at(p, 36),
        protocol: p[23],
    }
}

/// How the packet path judges an IPv4 frame: it matches the rules against
/// the flow that the frame's header fields give; the first active rule
/// (among the first `min(rule_count, 256)` entries) that matches decides,
/// and with no match the action is 0. The frame is dropped exactly when that
/// action is 1, and the log records the source address bytes, the ports,
/// the protocol byte and the action.
pub proof fn lemma_frame_judged_by_its_header(p: Seq<u8>, rules: Seq<Rule>, rule_count: u32)
    requires
        whole_ipv4_frame(p),
    ensures
        spec_handle(p, rules, rule_count) is Ok,
        ({
            let o = spec_handle(p, rules, rule_count)->Ok_0;
            let k = frame_flow(p);
            let limit: int = if rule_count < 256 { rule_count as int } else { 256 };
            &&& o.log is Some
            &&& o.log->Some_0.src_ip@ == p.subrange(26, 30)
            &&& o.log->Some_0.source_port == k.src_port
            &&& o.log->Some_0.dest_port == k.dest_port
            &&& o.log->Some_0.protocol == p[23]
            &&& o.verdict == (if o.log->Some_0.action == 1 { 1u32 } else { 2u32 })
            &&& ((exists|j: int|
                0 <= j < limit && j < rules.len() && flow_matches(#[trigger] rules[j], k) && (
                forall|i: int| 0 <= i < j && i < rules.len() ==> !flow_matches(#[trigger] rules[i], k))
                && o.log->Some_0.action == rules[j].action) || ((forall|i: int|
                0 <= i < limit && i < rules.len() ==> !flow_matches(#[trigger] rules[i], k))
                && o.log->Some_0.action == 0))
        }),
{
    let k = frame_flow(p);
    assert(crate::firewall::flow_key_of(p) == k);
    let limit: int = if rule_count < 256 { rule_count as int } else { 256 };
    lemma_first_match_is_first(rules, 0, limit, k);
    let o = spec_handle(p, rules, rule_count)->Ok_0;
    assert(o.log->Some_0.src_ip@ =~= p.subrange(26, 30));
    match first_match_from(rules, 0, limit, k) {
        Some(j) => {
            assert(flow_matches(rules[j], k));
        },
        None => {},
    }
}

/// Frames the packet path does not judge: one too short for an Ethernet
/// header, or an IPv4 frame too short for its IPv4, TCP or UDP header, is an
/// error (the program aborts); any other frame that is not IPv4 passes with
/// nothing logged.
pub proof fn lemma_frames_not_judged(p: Seq<u8>, rules: Seq<Rule>, rule_count: u32)
    ensures
        p.len() < 14 ==> spec_handle(p, rules, rule_count) is Err,
        p.len() >= 14 && p[12] == 0x08 && p[13] == 0x00 && (p.len() < 34 || (p[23] == 6
            && p.len() < 54) || (p[23] == 17 && p.len() < 42)) ==> spec_handle(
            p,
            rules,
            rule_count,
        ) is Err,
        p.len() >= 14 && !(p[12] == 0x08 && p[13] == 0x00) ==> spec_handle(p, rules, rule_count)
            == Ok::<crate::firewall::XdpOutcome, ()>(
            crate::firewall::XdpOutcome { verdict: 2, log: None },
        ),
{
}

/// What the listing filtered by an address shows: exactly the active rules
/// whose source network or destination network (with a mask other than
/// the wildcard 0) holds the address, each with its slot number, in slot
/// order.
pub proof fn lemma_filtered_listing(m: RuleTableModel, ip: u32)
    requires
        table_wf(m),
    ensures
        ({
            let l = spec_list(m, Some(ip));
            let limit: int = if m.count < 256 { m.count as int } else { 256 };
            &&& forall|j: int|
                0 <= j < l.len() ==> (#[trigger] l[j]).0 < limit && l[j].1 == m.slots[l[j].0 as int]
            &&& forall|j1: int, j2: int|
                0 <= j1 < j2 < l.len() ==> (#[trigger] l[j1]).0 < (#[trigger] l[j2]).0
            &&& forall|i: int|
                0 <= i < limit ==> ((exists|j: int| 0 <= j < l.len() && (#[trigger] l[j]).0 == i)
                    <==> ((m.slots[i].src_mask != 0 && ip & m.slots[i].src_mask == m.slots[i].src_ip
                    & m.slots[i].src_mask) || (m.slots[i].dest_mask != 0 && ip & m.slots[i].dest_mask
                    == m.slots[i].dest_ip & m.slots[i].dest_mask)))
        }),
{
    let limit: int = if m.count < 256 { m.count as int } else { 256 };
    assert(limit == crate::firewall::active_limit(m.count));
    lemma_listed(m.slots, limit, Some(ip));
    let l = spec_list(m, Some(ip));
    assert forall|i: int| 0 <= i < limit implies ((exists|j: int|
        0 <= j < l.len() && (#[trigger] l[j]).0 == i) <==> ((m.slots[i].src_mask != 0 && ip
        & m.slots[i].src_mask == m.slots[i].src_ip & m.slots[i].src_mask) || (m.slots[i].dest_mask
        != 0 && ip & m.slots[i].dest_mask == m.slots[i].dest_ip & m.slots[i].dest_mask))) by {
        if exists|j: int| 0 <= j < l.len() && (#[trigger] l[j]).0 == i {
            let j = choose|j: int| 0 <= j < l.len() && (#[trigger] l[j]).0 == i;
            assert(crate::table::passes(l[j].1, Some(ip)));
        }
        if crate::table::passes(m.slots[i], Some(ip)) {
            assert(exists|j: int| 0 <= j < l.len() && (#[trigger] l[j]).0 == i);
        }
    }
}

/// The listing without a filter shows every active rule, numbered by its
/// slot, in slot order.
pub proof fn lemma_unfiltered_listing(m: RuleTableModel)
    requires
        table_wf(m),
    ensures
        ({
            let limit: int = if m.count < 256 { m.count as int } else { 256 };
            spec_list(m, None) == Seq::new(limit as nat, |i: int| (i as u32, m.slots[i]))
        }),
{
    let limit: int = if m.count < 256 { m.count as int } else { 256 };
    lemma_unfiltered_prefix(m.slots, limit);
}

proof fn lemma_unfiltered_prefix(slots: Seq<Rule>, n: int)
    requires
        0 <= n <= slots.len(),
        n <= 256,
    ensures
        crate::table::listed(slots, n, None) == Seq::new(n as nat, |i: int| (i as u32, slots[i])),
    decreases n,
{
    if n > 0 {
        lemma_unfiltered_prefix(slots, n - 1);
        assert(crate::table::listed(slots, n, None) =~= Seq::new(
            n as nat,
            |i: int| (i as u32, slots[i]),
        ));
    } else {
        assert(crate::table::listed(slots, n, None) =~= Seq::new(
            n as nat,
            |i: int| (i as u32, slots[i]),
        ));
    }
}

/// An insert into a table with a free slot adds the rule at the end of the
/// listing, numbered by the old count; into a full table it changes nothing.
pub proof fn lemma_insert_appends_to_listing(m: RuleTableModel, rule: Rule)
    requires
        table_wf(m),
    ensures
        m.count < 256 ==> spec_insert(m, rule).0 is Ok && spec_list(spec_insert(m, rule).1, None)
            == spec_list(m, None).push((m.count, rule)),
        m.count >= 256 ==> spec_insert(m, rule) == (
            Err::<(), crate::table::TableError>(crate::table::TableError::Full),
            m,
        ),
{
    if m.count < 256 {
        let m1 = spec_insert(m, rule).1;
        lemma_unfiltered_listing(m);
        lemma_unfiltered_listing(m1);
        assert(spec_list(m1, None) =~= spec_list(m, None).push((m.count, rule)));
    }
}

} // verus!

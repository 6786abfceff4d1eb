//! The rule table as the control path manages it: a fixed array of
//! `MAX_RULES` slots and a count of the active ones, which occupy the slots
//! `0..count`. The packet path reads the same two maps.
use vstd::multiset::Multiset;
use vstd::prelude::*;

use crate::firewall::active_limit;
use crate::rules::{empty_rule, zero_rule, Action, Protocol, Rule, MAX_RULES};
use crate::text::{dec, push_dec, push_str};

verus! {

broadcast use vstd::seq_lib::group_to_multiset_ensures;

/// The rule map and the rule-count map.
pub struct RuleTable {
    slots: Vec<Rule>,
    count: u32,
}

/// The contents of a rule table.
#[verifier::ext_equal]
pub struct RuleTableModel {
    pub slots: Seq<Rule>,
    pub count: u32,
}

impl View for RuleTable {
    type V = RuleTableModel;

    closed spec fn view(&self) -> RuleTableModel {
        RuleTableModel { slots: self.slots@, count: self.count }
    }
}

/// Why a change to the rule table was refused.
#[derive(Clone, Copy, Debug, PartialEq, Eq, Structural)]
pub enum TableError {
    /// Every slot holds an active rule.
    Full,
    /// The index names no active rule.
    NoSuchRule { index: u32, count: u32 },
    /// The stored count points past the end of the rule map.
    OutOfBounds { index: u32 },
}

/// The table has exactly `MAX_RULES` slots.
pub open spec fn table_wf(m: RuleTableModel) -> bool {
    m.slots.len() == MAX_RULES
}

/// The active rules: the first `min(count, MAX_RULES)` slots.
pub open spec fn active(m: RuleTableModel) -> Seq<Rule> {
    m.slots.take(active_limit(m.count))
}

/// A rule "concerns" an address when its source or its destination network
/// (with a mask that is not the wildcard) contains the address.
pub open spec fn ip_hits(rule: Rule, ip: u32) -> bool {
    ||| (rule.src_mask != 0 && ip & rule.src_mask == rule.src_ip & rule.src_mask)
    ||| (rule.dest_mask != 0 && ip & rule.dest_mask == rule.dest_ip & rule.dest_mask)
}

pub open spec fn passes(rule: Rule, filter: Option<u32>) -> bool {
    match filter {
        Some(ip) => ip_hits(rule, ip),
        None => true,
    }
}

/// The numbered slots among the first `n` that pass the filter, in order.
pub open spec fn listed(slots: Seq<Rule>, n: int, filter: Option<u32>) -> Seq<(u32, Rule)>
    decreases n,
{
    if n <= 0 {
        seq![]
    } else {
        let prev = listed(slots, n - 1, filter);
        if passes(slots[n - 1], filter) {
            prev.push(((n - 1) as u32, slots[n - 1]))
        } else {
            prev
        }
    }
}

/// What the listing of a table shows.
pub open spec fn spec_list(m: RuleTableModel, filter: Option<u32>) -> Seq<(u32, Rule)> {
    listed(m.slots, active_limit(m.count), filter)
}

/// The rule built from the fields of an insert.
pub open spec fn rule_of(
    src_ip: u32,
    src_mask: u32,
    src_port: u16,
    dest_ip: u32,
    dest_mask: u32,
    dest_port: u16,
    protocol: Protocol,
    action: Action,
) -> Rule {
    Rule {
        src_ip,
        src_mask,
        dest_ip,
        dest_mask,
        src_port,
        dest_port,
        protocol: protocol.spec_number(),
        action: action.spec_code(),
    }
}

/// Appending a rule after the active ones, unless every slot is in use.
pub open spec fn spec_insert(m: RuleTableModel, rule: Rule) -> (Result<(), TableError>, RuleTableModel) {
    if m.count >= MAX_RULES {
        (Err(TableError::Full), m)
    } else {
        (Ok(()), RuleTableModel { slots: m.slots.update(m.count as int, rule), count: (m.count + 1) as u32 })
    }
}

/// Clearing every active slot and the count.
pub open spec fn spec_remove_all(m: RuleTableModel) -> RuleTableModel {
    RuleTableModel {
        slots: Seq::new(
            m.slots.len(),
            |i: int|
                if i < active_limit(m.count) {
                    zero_rule()
                } else {
                    m.slots[i]
                },
        ),
        count: 0,
    }
}

/// Slots past the active ones are zero. The maps start so, and every
/// change keeps it so.
pub open spec fn tidy(m: RuleTableModel) -> bool {
    forall|i: int| active_limit(m.count) <= i < m.slots.len() ==> #[trigger] m.slots[i] == zero_rule()
}

/// Removal of slot `index` by moving the last active rule into it.
pub open spec fn spec_remove(m: RuleTableModel, index: u32) -> (Result<(), TableError>, RuleTableModel) {
    if index >= m.count {
        (Err(TableError::NoSuchRule { index, count: m.count }), m)
    } else if m.count - 1 >= MAX_RULES {
        (Err(TableError::OutOfBounds { index: (m.count - 1) as u32 }), m)
    } else {
        let last = m.count - 1;
        (
            Ok(()),
            RuleTableModel {
                slots: m.slots.update(index as int, m.slots[last]).update(last, zero_rule()),
                count: last as u32,
            },
        )
    }
}

/// The listing has the numbered slots that pass the filter, in increasing
/// order, and every such slot below `n`.
pub proof fn lemma_listed(slots: Seq<Rule>, n: int, filter: Option<u32>)
    requires
        0 <= n <= slots.len(),
        n <= u32::MAX + 1,
    ensures
        forall|j: int|
            #![trigger listed(slots, n, filter)[j]]
            0 <= j < listed(slots, n, filter).len() ==> {
                let e = listed(slots, n, filter)[j];
                &&& e.0 < n
                &&& e.1 == slots[e.0 as int]
                &&& passes(e.1, filter)
            },
        forall|j1: int, j2: int|
            0 <= j1 < j2 < listed(slots, n, filter).len() ==> #[trigger] listed(slots, n, filter)[j1].0
                < #[trigger] listed(slots, n, filter)[j2].0,
        forall|p: int|
            0 <= p < n && passes(#[trigger] slots[p], filter) ==> exists|j: int|
                0 <= j < listed(slots, n, filter).len() && listed(slots, n, filter)[j].0 == p,
        listed(slots, n, filter).len() <= n,
    decreases n,
{
    if n > 0 {
        lemma_listed(slots, n - 1, filter);
        let prev = listed(slots, n - 1, filter);
        let cur = listed(slots, n, filter);
        if passes(slots[n - 1], filter) {
            assert forall|p: int|
                0 <= p < n && passes(#[trigger] slots[p], filter) implies exists|j: int|
                0 <= j < cur.len() && cur[j].0 == p by {
                if p == n - 1 {
                    assert(cur[cur.len() - 1].0 == p);
                } else {
                    let j = choose|j: int| 0 <= j < prev.len() && prev[j].0 == p;
                    assert(cur[j] == prev[j]);
                }
            }
            assert forall|j1: int, j2: int|
                0 <= j1 < j2 < cur.len() implies #[trigger] cur[j1].0 < #[trigger] cur[j2].0 by {
                assert(cur[j1] == prev[j1] || j1 == prev.len());
                if j2 < prev.len() {
                    assert(cur[j2] == prev[j2]);
                    assert(cur[j1] == prev[j1]);
                } else {
                    assert(cur[j1] == prev[j1]);
                    assert(prev[j1].0 < n - 1);
                }
            }
        }
    }
}

// ---------------------------------------------------------------------------
// Multisets under a swap removal.
// ---------------------------------------------------------------------------

proof fn lemma_update_multiset(u: Seq<Rule>, i: int, x: Rule)
    requires
        0 <= i < u.len(),
    ensures
        u.update(i, x).to_multiset() =~= u.to_multiset().remove(u[i]).insert(x),
{
    let w = u.update(i, x);
    assert(w.remove(i) =~= u.remove(i));
    assert(w.remove(i).to_multiset() =~= w.to_multiset().remove(w[i]));
    assert(u.remove(i).to_multiset() =~= u.to_multiset().remove(u[i]));
    assert(w.contains(x)) by {
        assert(w[i] == x);
    }
    assert(w.to_multiset().count(x) > 0);
}

/// Moving the last element into slot `idx` and dropping the last slot
/// removes one copy of the element that was at `idx`.
pub proof fn lemma_swap_remove_multiset(s: Seq<Rule>, idx: int)
    requires
        0 <= idx < s.len(),
    ensures
        s.update(idx, s.last()).drop_last().to_multiset() =~= s.to_multiset().remove(s[idx]),
{
    let n = s.len();
    assert(s.remove(n - 1) =~= s.drop_last());
    if idx == n - 1 {
        assert(s.update(idx, s.last()) =~= s);
    } else {
        let u = s.drop_last();
        assert(s.update(idx, s.last()).drop_last() =~= u.update(idx, s.last()));
        lemma_update_multiset(u, idx, s.last());
        assert(u.to_multiset() =~= s.to_multiset().remove(s.last()));
        assert(u[idx] == s[idx]);
        assert(s.remove(idx).contains(s.last())) by {
            assert(s.remove(idx)[n - 2] == s[n - 1]);
        }
        assert(s.remove(idx).to_multiset() =~= s.to_multiset().remove(s[idx]));
        assert(s.to_multiset().remove(s[idx]).count(s.last()) > 0);
    }
}

/// Removing the listed slots `hits[t-1]`, `hits[t-2]`, ..., `hits[0]` one
/// after the other, stopping at the first refusal.
pub open spec fn remove_listed(m: RuleTableModel, hits: Seq<(u32, Rule)>, t: int) -> (
    Result<(), TableError>,
    RuleTableModel,
)
    decreases t,
{
    if t <= 0 {
        (Ok(()), m)
    } else {
        let (r, m1) = spec_remove(m, hits[t - 1].0);
        if r is Err {
            (r, m1)
        } else {
            remove_listed(m1, hits, t - 1)
        }
    }
}

/// Removing every active rule that concerns `ip`, highest-numbered first.
pub open spec fn spec_remove_by_ip(m: RuleTableModel, ip: u32) -> (Result<u32, TableError>, RuleTableModel) {
    let hits = spec_list(m, Some(ip));
    let (r, m1) = remove_listed(m, hits, hits.len() as int);
    match r {
        Ok(()) => (Ok(hits.len() as u32), m1),
        Err(e) => (Err(e), m1),
    }
}

/// The rules of the listing, without their numbers.
pub open spec fn listed_rules(l: Seq<(u32, Rule)>) -> Seq<Rule> {
    l.map_values(|e: (u32, Rule)| e.1)
}

/// Where the removal of the listed rules from the top down has got to, when
/// `t` of them (the lowest) are still to go: slots below the boundary are as
/// they were, active slots from the boundary on concern no longer the
/// address, vacated slots are zero, and the active rules together with the
/// removed ones are the rules that were active.
spec fn by_ip_boundary(hits: Seq<(u32, Rule)>, t: int, count: u32) -> int {
    if t < hits.len() {
        hits[t].0 as int
    } else {
        count as int
    }
}

spec fn by_ip_inv(
    old_m: RuleTableModel,
    cur: RuleTableModel,
    hits: Seq<(u32, Rule)>,
    t: int,
    ip: u32,
) -> bool {
    let b = by_ip_boundary(hits, t, old_m.count);
    &&& table_wf(cur)
    &&& 0 <= t <= hits.len()
    &&& cur.count == old_m.count - (hits.len() - t)
    &&& b <= cur.count
    &&& forall|p: int| 0 <= p < b ==> #[trigger] cur.slots[p] == old_m.slots[p]
    &&& forall|p: int| b <= p < cur.count ==> !ip_hits(#[trigger] cur.slots[p], ip)
    &&& forall|p: int| cur.count <= p < old_m.count ==> #[trigger] cur.slots[p] == zero_rule()
    &&& forall|p: int| old_m.count <= p < MAX_RULES ==> #[trigger] cur.slots[p] == old_m.slots[p]
    &&& cur.slots.take(cur.count as int).to_multiset().add(
        listed_rules(hits.skip(t)).to_multiset(),
    ) =~= old_m.slots.take(old_m.count as int).to_multiset()
}

/// The facts about the listing of the rules that concern `ip`.
spec fn hits_facts(old_m: RuleTableModel, hits: Seq<(u32, Rule)>, ip: u32) -> bool {
    &&& forall|j: int|
        #![trigger hits[j]]
        0 <= j < hits.len() ==> {
            &&& hits[j].0 < old_m.count
            &&& hits[j].1 == old_m.slots[hits[j].0 as int]
            &&& ip_hits(hits[j].1, ip)
        }
    &&& forall|j1: int, j2: int|
        0 <= j1 < j2 < hits.len() ==> #[trigger] hits[j1].0 < #[trigger] hits[j2].0
    &&& forall|p: int|
        0 <= p < old_m.count && ip_hits(#[trigger] old_m.slots[p], ip) ==> exists|j: int|
            0 <= j < hits.len() && hits[j].0 == p
}

/// One removal of the next listed rule keeps the invariant.
proof fn lemma_by_ip_step(
    old_m: RuleTableModel,
    cur: RuleTableModel,
    hits: Seq<(u32, Rule)>,
    t: int,
    ip: u32,
)
    requires
        old_m.count <= MAX_RULES,
        table_wf(old_m),
        hits_facts(old_m, hits, ip),
        by_ip_inv(old_m, cur, hits, t, ip),
        t > 0,
    ensures
        hits[t - 1].0 < cur.count,
        spec_remove(cur, hits[t - 1].0).0 is Ok,
        by_ip_inv(old_m, spec_remove(cur, hits[t - 1].0).1, hits, t - 1, ip),
{
    let idx = hits[t - 1].0 as int;
    let b = by_ip_boundary(hits, t, old_m.count);
    assert(idx < b) by {
        if t < hits.len() {
            assert(hits[t - 1].0 < hits[t].0);
        }
    }
    let last = cur.count - 1;
    let next = spec_remove(cur, idx as u32).1;
    let x = hits[t - 1].1;
    assert(cur.slots[idx] == x);
    // A slot strictly between `idx` and the boundary held, and still holds,
    // a rule that does not concern the address.
    assert forall|p: int| idx < p < b implies !ip_hits(#[trigger] cur.slots[p], ip) by {
        assert(cur.slots[p] == old_m.slots[p]);
        if ip_hits(old_m.slots[p], ip) {
            let j = choose|j: int| 0 <= j < hits.len() && hits[j].0 == p;
            if j < t - 1 {
                assert(hits[j].0 < hits[t - 1].0);
            } else if j == t - 1 {
            } else if j < t {
            } else {
                if t < hits.len() {
                    if j > t {
                        assert(hits[t].0 < hits[j].0);
                    }
                }
            }
        }
    }
    assert(last != idx ==> !ip_hits(cur.slots[last], ip)) by {
        if last != idx {
            if last >= b {
            } else {
                assert(idx < last < b);
            }
        }
    }
    let active_cur = cur.slots.take(cur.count as int);
    assert(next.slots.take(next.count as int) =~= active_cur.update(idx, active_cur.last()).drop_last());
    lemma_swap_remove_multiset(active_cur, idx);
    assert(listed_rules(hits.skip(t - 1)) =~= seq![x] + listed_rules(hits.skip(t)));
    assert(listed_rules(hits.skip(t - 1)).to_multiset() =~= listed_rules(hits.skip(t)).to_multiset().insert(x)) by {
        let r = listed_rules(hits.skip(t));
        vstd::seq_lib::lemma_multiset_commutative(seq![x], r);
        assert(seq![x] =~= Seq::<Rule>::empty().push(x));
        assert(Seq::<Rule>::empty().to_multiset() =~= Multiset::<Rule>::empty());
    }
    assert(active_cur.to_multiset().count(x) > 0) by {
        assert(active_cur[idx] == x);
        assert(active_cur.contains(x));
    }
    assert forall|p: int| idx <= p < next.count implies !ip_hits(#[trigger] next.slots[p], ip) by {
        if p == idx {
            assert(next.slots[p] == cur.slots[last]);
        } else {
            assert(next.slots[p] == cur.slots[p]);
            if p < b {
                assert(idx < p < b);
            }
        }
    }
}

/// When every listed rule has been removed, no active rule concerns the
/// address any more.
proof fn lemma_by_ip_done(old_m: RuleTableModel, cur: RuleTableModel, hits: Seq<(u32, Rule)>, ip: u32)
    requires
        old_m.count <= MAX_RULES,
        hits_facts(old_m, hits, ip),
        by_ip_inv(old_m, cur, hits, 0, ip),
    ensures
        forall|p: int| 0 <= p < cur.count ==> !ip_hits(#[trigger] cur.slots[p], ip),
{
    let b = by_ip_boundary(hits, 0, old_m.count);
    assert forall|p: int| 0 <= p < cur.count implies !ip_hits(#[trigger] cur.slots[p], ip) by {
        if p < b {
            assert(cur.slots[p] == old_m.slots[p]);
            if ip_hits(old_m.slots[p], ip) {
                let j = choose|j: int| 0 <= j < hits.len() && hits[j].0 == p;
                if j > 0 {
                    assert(hits[0].0 < hits[j].0);
                }
            }
        }
    }
}

impl RuleTable {
    /// An empty table: all slots zero, no active rule (the state in which
    /// the maps are created).
    pub fn new() -> (r: RuleTable)
        ensures
            table_wf(r@),
            r@.count == 0,
            forall|i: int| 0 <= i < MAX_RULES ==> #[trigger] r@.slots[i] == zero_rule(),
    {
        let mut slots: Vec<Rule> = Vec::new();
        let mut i: usize = 0;
        while i < MAX_RULES
            invariant
                i <= MAX_RULES,
                slots@.len() == i,
                forall|j: int| 0 <= j < i ==> #[trigger] slots@[j] == zero_rule(),
            decreases MAX_RULES - i,
        {
            slots.push(empty_rule());
            i += 1;
        }
        RuleTable { slots, count: 0 }
    }

    /// A table with the given map contents; `None` unless there are exactly
    /// `MAX_RULES` slots.
    pub fn from_parts(slots: Vec<Rule>, count: u32) -> (r: Option<RuleTable>)
        ensures
            r is Some <==> slots@.len() == MAX_RULES,
            r matches Some(t) ==> t@.slots == slots@ && t@.count == count,
    {
        if slots.len() == MAX_RULES {
            Some(RuleTable { slots, count })
        } else {
            None
        }
    }

    /// Whether the table has exactly `MAX_RULES` slots.
    pub fn is_well_formed(&self) -> (r: bool)
        ensures
            r == table_wf(self@),
    {
        self.slots.len() == MAX_RULES
    }

    /// The stored count of active rules.
    pub fn count(&self) -> (r: u32)
        ensures
            r == self@.count,
    {
        self.count
    }

    /// The content of slot `i`.
    pub fn slot(&self, i: usize) -> (r: Rule)
        requires
            i < self@.slots.len(),
        ensures
            r == self@.slots[i as int],
    {
        self.slots[i]
    }

    /// All the slots of the rule map.
    pub fn slots(&self) -> (r: &Vec<Rule>)
        ensures
            r@ == self@.slots,
    {
        &self.slots
    }
}

/// The active rules, numbered; with a filter, only those whose source or
/// destination network contains the address.
pub fn list_rules(table: &RuleTable, filter_ip: Option<u32>) -> (r: Vec<(u32, Rule)>)
    requires
        table_wf(table@),
    ensures
        r@ == spec_list(table@, filter_ip),
{
    let limit: u32 = if table.count < MAX_RULES as u32 {
        table.count
    } else {
        MAX_RULES as u32
    };
    let mut result: Vec<(u32, Rule)> = Vec::new();
    let mut i: u32 = 0;
    while i < limit
        invariant
            i <= limit,
            limit as int == active_limit(table@.count),
            limit <= table.slots@.len(),
            result@ == listed(table.slots@, i as int, filter_ip),
        decreases limit - i,
    {
        let rule = table.slots[i as usize];
        let keep = match filter_ip {
            Some(ip) => {
                let src_hit = rule.src_mask != 0 && (ip & rule.src_mask) == (rule.src_ip
                    & rule.src_mask);
                let dst_hit = rule.dest_mask != 0 && (ip & rule.dest_mask) == (rule.dest_ip
                    & rule.dest_mask);
                src_hit || dst_hit
            },
            None => true,
        };
        if keep {
            result.push((i, rule));
        }
        i += 1;
    }
    result
}

/// Appends a rule after the active ones; refused when all slots are used.
pub fn insert_rule(
    table: &mut RuleTable,
    src_ip: u32,
    src_mask: u32,
    src_port: u16,
    dest_ip: u32,
    dest_mask: u32,
    dest_port: u16,
    protocol: Protocol,
    action: Action,
) -> (r: Result<(), TableError>)
    requires
        table_wf(old(table)@),
    ensures
        table_wf(final(table)@),
        (r, final(table)@) == spec_insert(
            old(table)@,
            rule_of(src_ip, src_mask, src_port, dest_ip, dest_mask, dest_port, protocol, action),
        ),
        tidy(old(table)@) ==> tidy(final(table)@),
{
    let index = table.count;
    if index >= MAX_RULES as u32 {
        return Err(TableError::Full);
    }
    let rule = Rule {
        src_ip,
        src_mask,
        dest_ip,
        dest_mask,
        src_port,
        dest_port,
        protocol: protocol.number(),
        action: action.code(),
    };
    table.slots.set(index as usize, rule);
    table.count = index + 1;
    Ok(())
}

/// Removes active rule `index` by moving the last active rule into its
/// slot and clearing the last slot.
pub fn remove_rule(table: &mut RuleTable, index: u32) -> (r: Result<(), TableError>)
    requires
        table_wf(old(table)@),
    ensures
        table_wf(final(table)@),
        (r, final(table)@) == spec_remove(old(table)@, index),
        tidy(old(table)@) ==> tidy(final(table)@),
{
    let count = table.count;
    if index >= count {
        return Err(TableError::NoSuchRule { index, count });
    }
    let last = count - 1;
    if last >= MAX_RULES as u32 {
        return Err(TableError::OutOfBounds { index: last });
    }
    if index != last {
        let last_rule = table.slots[last as usize];
        table.slots.set(index as usize, last_rule);
    }
    table.slots.set(last as usize, empty_rule());
    table.count = last;
    proof {
        if index == last {
            assert(old(table)@.slots.update(index as int, old(table)@.slots[last as int]) =~= old(table)@.slots);
        }
    }
    assert(table@.slots =~= old(table)@.slots.update(
        index as int,
        old(table)@.slots[last as int],
    ).update(last as int, zero_rule()));
    Ok(())
}

/// Clears every active slot and the count; gives the count as it was.
pub fn remove_all_rules(table: &mut RuleTable) -> (r: u32)
    requires
        table_wf(old(table)@),
    ensures
        table_wf(final(table)@),
        r == old(table)@.count,
        final(table)@ == spec_remove_all(old(table)@),
        tidy(old(table)@) ==> tidy(final(table)@),
        final(table)@.count == 0,
        forall|i: int|
            0 <= i < MAX_RULES ==> #[trigger] final(table)@.slots[i] == if i < active_limit(
                old(table)@.count,
            ) {
                zero_rule()
            } else {
                old(table)@.slots[i]
            },
{
    let count = table.count;
    let limit: u32 = if count < MAX_RULES as u32 {
        count
    } else {
        MAX_RULES as u32
    };
    let mut i: u32 = 0;
    while i < limit
        invariant
            i <= limit,
            limit as int == active_limit(count),
            count == old(table)@.count,
            table.slots@.len() == MAX_RULES,
            forall|j: int|
                0 <= j < MAX_RULES ==> #[trigger] table.slots@[j] == if j < i {
                    zero_rule()
                } else {
                    old(table)@.slots[j]
                },
        decreases limit - i,
    {
        table.slots.set(i as usize, empty_rule());
        i += 1;
    }
    table.count = 0;
    count
}

/// Removes every active rule whose source or destination network
/// contains `ip`, from the highest-numbered down; gives how many.
pub fn remove_rules_by_ip(table: &mut RuleTable, ip: u32) -> (r: Result<u32, TableError>)
    requires
        table_wf(old(table)@),
    ensures
        table_wf(final(table)@),
        (r, final(table)@) == spec_remove_by_ip(old(table)@, ip),
        tidy(old(table)@) ==> tidy(final(table)@),
        spec_list(old(table)@, Some(ip)).len() == 0 ==> r == Ok::<u32, TableError>(0)
            && final(table)@ == old(table)@,
        spec_list(old(table)@, Some(ip)).len() > 0 && old(table)@.count > MAX_RULES ==> r
            == Err::<u32, TableError>(
            TableError::OutOfBounds { index: (old(table)@.count - 1) as u32 },
        ) && final(table)@ == old(table)@,
        old(table)@.count <= MAX_RULES ==> {
            let hits = spec_list(old(table)@, Some(ip));
            &&& hits.len() <= MAX_RULES
            &&& r == Ok::<u32, TableError>(hits.len() as u32)
            &&& final(table)@.count == old(table)@.count - hits.len()
            &&& forall|i: int|
                0 <= i < final(table)@.count ==> !ip_hits(#[trigger] final(table)@.slots[i], ip)
            &&& active(final(table)@).to_multiset().add(listed_rules(hits).to_multiset())
                =~= active(old(table)@).to_multiset()
            &&& forall|i: int|
                final(table)@.count <= i < old(table)@.count ==> #[trigger] final(table)@.slots[i]
                    == zero_rule()
            &&& forall|i: int|
                old(table)@.count <= i < MAX_RULES ==> #[trigger] final(table)@.slots[i] == old(table)@.slots[i]
        },
{
    let hits = list_rules(table, Some(ip));
    let ghost old_m = table@;
    let ghost hs = hits@;
    proof {
        lemma_listed(old_m.slots, active_limit(old_m.count), Some(ip));
        assert(hs.skip(hs.len() as int) =~= Seq::<(u32, Rule)>::empty());
        assert(listed_rules(Seq::<(u32, Rule)>::empty()) =~= Seq::<Rule>::empty());
        assert(Seq::<Rule>::empty().to_multiset() =~= Multiset::<Rule>::empty());
        if old_m.count <= MAX_RULES {
            assert(hits_facts(old_m, hs, ip));
            assert(by_ip_inv(old_m, old_m, hs, hs.len() as int, ip));
        }
    }
    let k = hits.len();
    let mut t = k;
    while t > 0
        invariant
            old_m == old(table)@,
            remove_listed(old_m, hs, k as int) == remove_listed(table@, hs, t as int),
            hits@ == hs,
            hs == spec_list(old_m, Some(ip)),
            k == hs.len(),
            t <= k,
            k <= MAX_RULES,
            table_wf(old_m),
            table_wf(table@),
            forall|j: int| #![trigger hs[j]] 0 <= j < hs.len() ==> hs[j].0 < active_limit(old_m.count),
            old_m.count > MAX_RULES ==> t == k && table@ == old_m,
            old_m.count <= MAX_RULES ==> by_ip_inv(old_m, table@, hs, t as int, ip),
            old_m.count <= MAX_RULES ==> hits_facts(old_m, hs, ip),
        decreases t,
    {
        let idx = hits[t - 1].0;
        assert(hs[t - 1].0 == idx);
        proof {
            if old_m.count <= MAX_RULES {
                lemma_by_ip_step(old_m, table@, hs, t as int, ip);
            }
        }
        match remove_rule(table, idx) {
            Ok(()) => {},
            Err(e) => {
                proof {
                    assert(old_m.count > MAX_RULES);
                    assert(table@ =~= old_m);
                    assert(hs.len() > 0);
                }
                return Err(e);
            },
        }
        t -= 1;
    }
    proof {
        if old_m.count <= MAX_RULES {
            lemma_by_ip_done(old_m, table@, hs, ip);
            assert(hs.skip(0) =~= hs);
        } else {
            assert(table@ =~= old_m);
        }
        if hs.len() == 0 && old_m.count <= MAX_RULES {
            assert(table@.slots =~= old_m.slots);
        }
    }
    Ok(k as u32)
}

/// The message of a refused change, as the console shows it.
pub open spec fn table_error_text(e: TableError) -> Seq<char> {
    match e {
        TableError::Full => "rule table full (max 256 rules)"@,
        TableError::NoSuchRule { index, count } => "rule #"@ + dec(index as nat)
            + " does not exist (active rules: 0.."@ + dec(
            if count == 0 {
                0
            } else {
                (count - 1) as nat
            },
        ) + ")"@,
        TableError::OutOfBounds { index } => "the index is "@ + dec(index as nat)
            + " but `max_entries` is 256"@,
    }
}

pub fn push_table_error(out: &mut Vec<char>, e: TableError)
    ensures
        final(out)@ == old(out)@ + table_error_text(e),
{
    match e {
        TableError::Full => push_str(out, "rule table full (max 256 rules)"),
        TableError::NoSuchRule { index, count } => {
            push_str(out, "rule #");
            push_dec(out, index);
            push_str(out, " does not exist (active rules: 0..");
            push_dec(out, count.saturating_sub(1));
            push_str(out, ")");
        },
        TableError::OutOfBounds { index } => {
            push_str(out, "the index is ");
            push_dec(out, index);
            push_str(out, " but `max_entries` is 256");
        },
    }
    assert(final(out)@ =~= old(out)@ + table_error_text(e));
}

} // verus!

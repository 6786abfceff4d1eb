use xdp_fw::rules::{Action, Protocol, Rule, MAX_RULES};
use xdp_fw::table::TableError;
use xdp_fw::util::{insert_rule, list_rules, remove_all_rules, remove_rule, remove_rules_by_ip, RuleTable};

fn host(a: [u8; 4]) -> u32 {
    u32::from_be_bytes(a)
}

fn add(t: &mut RuleTable, src: u32, port: u16) -> Result<(), TableError> {
    insert_rule(t, src, if src == 0 { 0 } else { !0 }, 0, 0, 0, port, Protocol::Any, Action::Drop)
}

#[test]
fn insert_appends_and_lists() {
    let mut t = RuleTable::new();
    assert_eq!(t.count(), 0);
    assert!(list_rules(&t, None).is_empty());
    add(&mut t, host([1, 2, 3, 4]), 0).unwrap();
    add(&mut t, 0, 80).unwrap();
    assert_eq!(t.count(), 2);
    let listed = list_rules(&t, None);
    assert_eq!(listed.len(), 2);
    assert_eq!(listed[0].0, 0);
    assert_eq!(listed[1].0, 1);
    assert_eq!(listed[1].1.dest_port, 80);
    assert_eq!(listed[0].1.protocol, 255);
    assert_eq!(listed[0].1.action, 1);
    let filtered = list_rules(&t, Some(host([1, 2, 3, 4])));
    assert_eq!(filtered.len(), 1);
    assert_eq!(filtered[0].0, 0);
    assert!(list_rules(&t, Some(host([9, 9, 9, 9]))).is_empty());
}

#[test]
fn a_full_table_refuses_inserts() {
    let mut t = RuleTable::new();
    for i in 0..MAX_RULES {
        add(&mut t, 0, (i + 1) as u16).unwrap();
    }
    assert_eq!(add(&mut t, 0, 9), Err(TableError::Full));
    assert_eq!(t.count(), MAX_RULES as u32);
}

#[test]
fn remove_moves_the_last_rule_into_the_gap() {
    let mut t = RuleTable::new();
    for p in [10u16, 20, 30] {
        add(&mut t, 0, p).unwrap();
    }
    remove_rule(&mut t, 0).unwrap();
    assert_eq!(t.count(), 2);
    assert_eq!(t.slot(0).dest_port, 30);
    assert_eq!(t.slot(1).dest_port, 20);
    assert_eq!(t.slot(2), Rule { src_ip: 0, src_mask: 0, dest_ip: 0, dest_mask: 0, src_port: 0, dest_port: 0, protocol: 0, action: 0 });
    assert_eq!(remove_rule(&mut t, 2), Err(TableError::NoSuchRule { index: 2, count: 2 }));
    remove_rule(&mut t, 1).unwrap();
    assert_eq!(t.count(), 1);
    assert_eq!(t.slot(0).dest_port, 30);
}

#[test]
fn a_count_past_the_map_is_refused() {
    let slots = RuleTable::new().slots().clone();
    let mut t = RuleTable::from_parts(slots, 300).unwrap();
    assert_eq!(remove_rule(&mut t, 5), Err(TableError::OutOfBounds { index: 299 }));
    assert_eq!(t.count(), 300);
    assert!(RuleTable::from_parts(Vec::new(), 0).is_none());
}

#[test]
fn remove_all_clears_everything() {
    let mut t = RuleTable::new();
    for p in [1u16, 2, 3] {
        add(&mut t, 0, p).unwrap();
    }
    assert_eq!(remove_all_rules(&mut t), 3);
    assert_eq!(t.count(), 0);
    assert!(t.slots().iter().all(|r| r.dest_port == 0 && r.action == 0));
}

#[test]
fn remove_by_ip_removes_exactly_the_rules_that_concern_it() {
    let mut t = RuleTable::new();
    let a = host([1, 2, 3, 4]);
    let b = host([5, 6, 7, 8]);
    add(&mut t, a, 1).unwrap();
    add(&mut t, b, 2).unwrap();
    add(&mut t, a, 3).unwrap();
    add(&mut t, b, 4).unwrap();
    add(&mut t, a, 5).unwrap();
    assert_eq!(remove_rules_by_ip(&mut t, a), Ok(3));
    assert_eq!(t.count(), 2);
    let mut ports: Vec<u16> = (0..2).map(|i| t.slot(i).dest_port).collect();
    ports.sort();
    assert_eq!(ports, vec![2, 4]);
    assert!(list_rules(&t, Some(a)).is_empty());
    assert_eq!(remove_rules_by_ip(&mut t, a), Ok(0));
    assert_eq!(t.slot(2).action, 0);
}

#[test]
fn remove_by_ip_with_a_count_past_the_map() {
    let mut slots = RuleTable::new().slots().clone();
    slots[0] = Rule { src_ip: 7, src_mask: !0, dest_ip: 0, dest_mask: 0, src_port: 0, dest_port: 0, protocol: 255, action: 1 };
    let mut t = RuleTable::from_parts(slots, 400).unwrap();
    assert_eq!(remove_rules_by_ip(&mut t, 7), Err(TableError::OutOfBounds { index: 399 }));
    assert_eq!(remove_rules_by_ip(&mut t, 8), Ok(0));
}

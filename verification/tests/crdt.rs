use std::collections::HashSet;

use actant::common::NodeId;
use actant::runtime::state::crdt::{Crdt, GCounter, LWWRegister, ORSet};
use actant::runtime::state::hlc::HybridLogicalClock;

fn node(name: &str) -> NodeId {
    NodeId(name.to_string())
}

#[test]
fn gcounter_increment_and_merge() {
    let mut a = GCounter::new();
    a.increment(node("n1"));
    a.increment(node("n1"));
    a.increment(node("n2"));
    assert_eq!(a.value(), 3);

    let mut b = GCounter::new();
    b.increment(node("n1"));
    b.increment(node("n3"));

    a.merge(&b);
    assert_eq!(a.value(), 4);
}

#[test]
fn orset_add_and_merge() {
    let mut a: ORSet<String> = ORSet::new();
    a.add(node("n1"), "x".to_string());
    a.add(node("n2"), "y".to_string());

    let mut b: ORSet<String> = ORSet::new();
    b.add(node("n3"), "z".to_string());

    a.merge(&b);
    let values: HashSet<String> = a.values().into_iter().cloned().collect();
    assert!(values.contains("x"));
    assert!(values.contains("y"));
    assert!(values.contains("z"));
}

#[test]
fn lww_register_last_write_wins() {
    let mut clock = HybridLogicalClock::new();
    let mut reg: LWWRegister<i32> = LWWRegister::new();

    let t1 = clock.tick();
    reg.set(node("n1"), t1, 1);
    assert_eq!(reg.get(), Some(&1));

    let t2 = clock.tick();
    reg.set(node("n2"), t2, 2);
    assert_eq!(reg.get(), Some(&2));

    reg.set(node("n3"), t1, 3);
    assert_eq!(reg.get(), Some(&2));
}

#[test]
fn lww_register_tie_break_by_node_id() {
    let mut clock = HybridLogicalClock::new();
    let t = clock.tick();

    let mut reg: LWWRegister<i32> = LWWRegister::new();
    reg.set(node("a-node"), t, 1);
    reg.set(node("b-node"), t, 2);
    assert_eq!(reg.get(), Some(&2));

    let mut reg2: LWWRegister<i32> = LWWRegister::new();
    reg2.set(node("b-node"), t, 2);
    reg2.set(node("a-node"), t, 1);
    assert_eq!(reg2.get(), Some(&2));
}

#[test]
fn lww_register_tie_break_converges_via_merge() {
    let mut clock = HybridLogicalClock::new();
    let t = clock.tick();

    let mut a: LWWRegister<i32> = LWWRegister::new();
    a.set(node("a-node"), t, 1);
    let mut b: LWWRegister<i32> = LWWRegister::new();
    b.set(node("b-node"), t, 2);

    a.merge(&b);
    assert_eq!(a.get(), Some(&2));
    b.merge(&a);
    assert_eq!(b.get(), Some(&2));

    a.merge(&b);
    a.merge(&b);
    assert_eq!(a.get(), Some(&2));
}

#[test]
fn counter_operations_raise_and_never_lower() {
    let mut a = GCounter::default();
    a.apply(&(node("n1"), 5));
    a.apply(&(node("n1"), 3));
    assert_eq!(a.value(), 5);
    a.set(node("n2"), 2);
    assert_eq!(a.value(), 7);
}

#[test]
fn set_counts_values_once() {
    let mut a: ORSet<u64> = ORSet::default();
    assert!(a.is_empty());
    a.apply(&(node("n1"), 7));
    a.apply(&(node("n2"), 7));
    assert_eq!(a.len(), 1);
    assert!(!a.is_empty());
    assert_eq!(a.values(), vec![&7]);
}

#[test]
fn set_merges_commute() {
    let mut a: ORSet<u64> = ORSet::new();
    a.add(node("n1"), 1);
    let mut b: ORSet<u64> = ORSet::new();
    b.add(node("n2"), 1);
    b.add(node("n2"), 2);
    let mut ab: ORSet<u64> = ORSet::new();
    ab.merge(&a);
    ab.merge(&b);
    let mut ba: ORSet<u64> = ORSet::new();
    ba.merge(&b);
    ba.merge(&a);
    let left: HashSet<u64> = ab.values().into_iter().copied().collect();
    let right: HashSet<u64> = ba.values().into_iter().copied().collect();
    assert_eq!(left, right);
    assert_eq!(ab.len(), 2);
}

#[test]
fn register_operation_applies() {
    let mut clock = HybridLogicalClock::new();
    let t = clock.tick();
    let mut reg: LWWRegister<String> = LWWRegister::default();
    assert!(reg.get().is_none());
    reg.apply(&(node("n1"), t, "v".to_string()));
    assert_eq!(reg.get(), Some(&"v".to_string()));
}

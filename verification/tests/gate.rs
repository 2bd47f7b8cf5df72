use soyokaze::gate::{Gate, Permit};

const SECOND: u64 = 1_000_000_000;
const A: u128 = 0xffff_7f00_0001;
const B: u128 = 0xffff_0a00_0001;

fn count_of(gate: &Gate, ip: u128) -> u32 {
    gate.state.per_ip.iter().find(|(key, _)| *key == ip).map(|(_, count)| *count).unwrap_or(0)
}

#[test]
fn gate_new_takes_longest_window() {
    let gate = Gate::new(10, 2, vec![(SECOND, 5), (60 * SECOND, 30)], 100);
    assert_eq!(gate.window(), 60 * SECOND);
    assert_eq!(gate.count(), 0);
    let empty = Gate::new(0, 0, vec![], 0);
    assert_eq!(empty.window(), 0);
}

#[test]
fn gate_total_limit() {
    let mut gate = Gate::new(2, 0, vec![], 10);
    assert_eq!(gate.admit_connection(None, 0), Some(Permit { ip: None }));
    assert_eq!(gate.admit_connection(Some(A), 0), Some(Permit { ip: Some(A) }));
    assert_eq!(gate.admit_connection(Some(B), 0), None);
    assert_eq!(gate.count(), 2);
    gate.release(None);
    assert_eq!(gate.count(), 1);
    assert!(gate.admit_connection(Some(B), 0).is_some());
}

#[test]
fn gate_per_address_limit() {
    let mut gate = Gate::new(0, 1, vec![], 10);
    assert!(gate.admit_connection(Some(A), 0).is_some());
    assert!(gate.admit_connection(Some(A), 0).is_none());
    assert!(gate.admit_connection(Some(B), 0).is_some());
    assert_eq!(count_of(&gate, A), 1);
    assert_eq!(gate.count(), 2);
    gate.release(Some(A));
    assert_eq!(count_of(&gate, A), 0);
    assert!(gate.state.per_ip.iter().all(|(key, _)| *key != A));
    assert!(gate.admit_connection(Some(A), 0).is_some());
}

#[test]
fn gate_rate_limit() {
    let mut gate = Gate::new(0, 0, vec![(10 * SECOND, 2)], 10);
    assert!(gate.admit_connection(Some(A), 0).is_some());
    assert!(gate.admit_connection(Some(A), SECOND).is_some());
    assert!(gate.admit_connection(Some(A), 2 * SECOND).is_none());
    assert_eq!(gate.count(), 2);
    assert!(gate.admit_connection(Some(A), 11 * SECOND).is_some());
    assert!(gate.admit_connection(Some(B), 2 * SECOND).is_some());
}

#[test]
fn gate_release_undoes_admit() {
    let mut gate = Gate::new(5, 5, vec![(SECOND, 100)], 10);
    let before = (gate.count(), gate.state.per_ip.clone());
    let permit = gate.admit_connection(Some(A), 0).unwrap();
    assert_eq!(count_of(&gate, A), 1);
    gate.release(permit.ip);
    assert_eq!((gate.count(), gate.state.per_ip.clone()), before);
}

#[test]
fn gate_release_without_permit_wraps() {
    let mut gate = Gate::new(0, 0, vec![], 0);
    gate.release(Some(A));
    assert_eq!(gate.count(), u32::MAX);
}

#[test]
fn gate_history_is_bounded() {
    let mut gate = Gate::new(1, 0, vec![(SECOND, 10)], 2);
    for ip in 0..5u128 {
        assert!(gate.admit_connection(Some(ip), 0).is_some());
        gate.release(Some(ip));
    }
    assert_eq!(gate.state.history.len(), 2);
    assert_eq!(gate.state.history[1].0, 4);
}

#[test]
fn gate_rate_records_and_prunes() {
    let gate = Gate::new(0, 0, vec![(SECOND, 2)], 10);
    let mut state = soyokaze::gate::GateState { per_ip: vec![], history: vec![(A, vec![0, SECOND / 2])] };
    assert!(!gate.rate(&mut state, A, SECOND / 2));
    assert_eq!(state.history[0].1, vec![0, SECOND / 2]);
    assert!(gate.rate(&mut state, A, SECOND + 1));
    assert_eq!(state.history[0].1, vec![SECOND / 2, SECOND + 1]);
    assert!(gate.rate(&mut state, B, 0));
    assert_eq!(state.history[1], (B, vec![0]));
}

#[test]
fn gate_bound_history_keeps_address() {
    let gate = Gate::new(0, 0, vec![], 1);
    let mut state = soyokaze::gate::GateState {
        per_ip: vec![],
        history: vec![(A, vec![1]), (B, vec![2]), (3, vec![3])],
    };
    gate.bound_history(&mut state, A);
    assert_eq!(state.history, vec![(A, vec![1])]);
}

#[test]
fn gate_sweep_drops_aged_history() {
    let mut gate = Gate::new(0, 0, vec![(SECOND, 10)], 10);
    gate.state.history = vec![(A, vec![0]), (B, vec![0, 5 * SECOND])];
    gate.sweep(5 * SECOND);
    assert_eq!(gate.state.history, vec![(B, vec![5 * SECOND])]);
}

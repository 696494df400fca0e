use mycelium::task_state::{State, StateVar};

#[test]
fn packing_specs_valid() {
    State::assert_valid()
}

#[test]
fn new_task_has_one_ref_and_no_flags() {
    let var = StateVar::new();
    let state = var.load();
    assert_eq!(state.ref_count(), 1);
    assert!(!state.get(State::polling()));
    assert!(!state.get(State::woken()));
    assert!(!state.get(State::completed()));
}

#[test]
fn start_poll_twice_fails() {
    let mut var = StateVar::new();
    assert!(var.start_poll().is_ok());
    assert!(var.load().get(State::polling()));
    let err = var.start_poll().unwrap_err();
    assert!(err.get(State::polling()));
}

#[test]
fn start_poll_consumes_wakeup() {
    let mut var = StateVar::new();
    var.clone_ref();
    let woken = var.load().with(State::woken(), true);
    assert!(woken.get(State::woken()));
    assert!(var.start_poll().is_ok());
    assert!(!var.load().get(State::woken()));
    assert_eq!(var.load().ref_count(), 2);
}

#[test]
fn end_poll_records_completion() {
    let mut var = StateVar::new();
    var.start_poll().unwrap();
    var.end_poll(true).unwrap();
    let state = var.load();
    assert!(!state.get(State::polling()));
    assert!(state.get(State::completed()));
    assert!(var.start_poll().is_err());
}

#[test]
fn end_poll_without_completion() {
    let mut var = StateVar::new();
    var.start_poll().unwrap();
    var.end_poll(false).unwrap();
    let state = var.load();
    assert!(!state.get(State::polling()));
    assert!(!state.get(State::completed()));
    assert!(var.start_poll().is_ok());
}

#[test]
fn clone_and_drop_refs() {
    let mut var = StateVar::new();
    var.clone_ref();
    assert_eq!(var.load().ref_count(), 2);
    assert!(!var.drop_ref());
    assert_eq!(var.load().ref_count(), 1);
    assert!(var.drop_ref());
    assert_eq!(var.load().ref_count(), 0);
}

#[test]
fn state_with_and_get_roundtrip() {
    let s = State::new().with(State::refs(), 5).with(State::completed(), true);
    assert_eq!(s.ref_count(), 5);
    assert!(s.get(State::completed()));
    assert_eq!(s.bits(), (5 << 3) | 4);
}

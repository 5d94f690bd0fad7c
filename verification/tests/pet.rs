use kimi_pet::pet::{
    auto_quit_armed, current_state, mark_disconnected, set_auto_quit, set_state, state_cell,
};
use kimi_pet::state::PetState;

#[test]
fn starts_idle() {
    let pet = state_cell();
    assert_eq!(current_state(&pet), "idle");
    assert!(!auto_quit_armed(&pet));
}

#[test]
fn announces_only_new_states() {
    let mut pet = state_cell();
    assert_eq!(set_state(&mut pet, PetState::Idle), None);
    assert_eq!(set_state(&mut pet, PetState::Offline), Some("offline"));
    assert_eq!(set_state(&mut pet, PetState::Offline), None);
    assert_eq!(set_state(&mut pet, PetState::Idle), Some("idle"));
    assert_eq!(set_state(&mut pet, PetState::Approval), Some("approval"));
    assert_eq!(current_state(&pet), "approval");
}

#[test]
fn armed_needs_wish_and_connection() {
    let mut pet = state_cell();
    set_auto_quit(&mut pet, true);
    assert!(!auto_quit_armed(&pet));
    pet.connected_once = true;
    assert!(auto_quit_armed(&pet));
    set_auto_quit(&mut pet, false);
    assert!(!auto_quit_armed(&pet));
}

#[test]
fn grace_period_keeps_the_state() {
    let mut pet = state_cell();
    set_state(&mut pet, PetState::Answering);
    let first = mark_disconnected(&mut pet, 1_000);
    assert_eq!(first.announce, None);
    assert!(!first.exit);
    assert_eq!(pet.disconnected_since, Some(1_000));
    let within = mark_disconnected(&mut pet, 10_999);
    assert_eq!(within.announce, None);
    assert_eq!(current_state(&pet), "answering");
    let after = mark_disconnected(&mut pet, 11_000);
    assert_eq!(after.announce, Some("offline"));
    assert_eq!(current_state(&pet), "offline");
    assert_eq!(mark_disconnected(&mut pet, 12_000).announce, None);
    assert_eq!(pet.disconnected_since, Some(1_000));
}

#[test]
fn quits_after_two_minutes_if_armed() {
    let mut pet = state_cell();
    set_auto_quit(&mut pet, true);
    mark_disconnected(&mut pet, 0);
    assert!(!mark_disconnected(&mut pet, 120_000).exit);
    pet.connected_once = true;
    assert!(!mark_disconnected(&mut pet, 119_999).exit);
    assert!(mark_disconnected(&mut pet, 120_000).exit);
    set_auto_quit(&mut pet, false);
    assert!(!mark_disconnected(&mut pet, 500_000).exit);
}

#[test]
fn clock_that_runs_backwards_counts_as_no_time() {
    let mut pet = state_cell();
    set_state(&mut pet, PetState::Idle);
    mark_disconnected(&mut pet, 50_000);
    assert_eq!(mark_disconnected(&mut pet, 10).announce, None);
    assert_eq!(current_state(&pet), "idle");
}

use keywatch::attach::{after_open, consider_entry, OpenDecision, OpenFailurePolicy, OpenOrigin};
use keywatch::registry::ReaderRegistry;

#[test]
fn the_default_policy_passes_failures_over() {
    assert_eq!(OpenFailurePolicy::default(), OpenFailurePolicy::Skip);
}

#[test]
fn a_keyboard_without_a_reader_is_opened_and_claimed() {
    let mut registry = ReaderRegistry::new();
    assert!(consider_entry(&mut registry, b"/dev/input/by-id/kbd0-event-kbd"));
    assert!(registry.is_active(b"/dev/input/by-id/kbd0-event-kbd"));
}

#[test]
fn a_keyboard_with_a_reader_is_not_opened_again() {
    let mut registry = ReaderRegistry::new();
    assert!(consider_entry(&mut registry, b"kbd0-event-kbd"));
    assert!(!consider_entry(&mut registry, b"kbd0-event-kbd"));
    assert_eq!(registry.len(), 1);
}

#[test]
fn another_entry_is_neither_opened_nor_claimed() {
    let mut registry = ReaderRegistry::new();
    assert!(!consider_entry(&mut registry, b"mouse0-event-mouse"));
    assert!(!registry.is_active(b"mouse0-event-mouse"));
    assert_eq!(registry.len(), 0);
}

#[test]
fn a_successful_open_starts_a_reader() {
    for origin in [OpenOrigin::Discovery, OpenOrigin::HotPlug] {
        for policy in [OpenFailurePolicy::Skip, OpenFailurePolicy::Abort] {
            let mut registry = ReaderRegistry::new();
            assert!(consider_entry(&mut registry, b"kbd0-event-kbd"));
            let decision = after_open(&mut registry, b"kbd0-event-kbd", origin, policy, true);
            assert_eq!(decision, OpenDecision::StartReader);
            assert!(registry.is_active(b"kbd0-event-kbd"));
        }
    }
}

#[test]
fn a_failed_open_in_discovery_is_passed_over() {
    for policy in [OpenFailurePolicy::Skip, OpenFailurePolicy::Abort] {
        let mut registry = ReaderRegistry::new();
        assert!(consider_entry(&mut registry, b"kbd0-event-kbd"));
        let decision =
            after_open(&mut registry, b"kbd0-event-kbd", OpenOrigin::Discovery, policy, false);
        assert_eq!(decision, OpenDecision::Skip);
        assert!(!registry.is_active(b"kbd0-event-kbd"));
    }
}

#[test]
fn a_failed_open_of_a_plugged_device_follows_the_policy() {
    let mut registry = ReaderRegistry::new();
    assert!(consider_entry(&mut registry, b"kbd0-event-kbd"));
    let skipped = after_open(
        &mut registry,
        b"kbd0-event-kbd",
        OpenOrigin::HotPlug,
        OpenFailurePolicy::Skip,
        false,
    );
    assert_eq!(skipped, OpenDecision::Skip);
    assert!(!registry.is_active(b"kbd0-event-kbd"));
    assert!(consider_entry(&mut registry, b"kbd0-event-kbd"));
    let aborted = after_open(
        &mut registry,
        b"kbd0-event-kbd",
        OpenOrigin::HotPlug,
        OpenFailurePolicy::Abort,
        false,
    );
    assert_eq!(aborted, OpenDecision::Abort);
    assert!(!registry.is_active(b"kbd0-event-kbd"));
}

#[test]
fn a_failed_open_leaves_the_other_claims() {
    let mut registry = ReaderRegistry::new();
    assert!(consider_entry(&mut registry, b"kbd0-event-kbd"));
    assert!(consider_entry(&mut registry, b"kbd1-event-kbd"));
    let decision = after_open(
        &mut registry,
        b"kbd0-event-kbd",
        OpenOrigin::Discovery,
        OpenFailurePolicy::Skip,
        false,
    );
    assert_eq!(decision, OpenDecision::Skip);
    assert!(registry.is_active(b"kbd1-event-kbd"));
    assert_eq!(registry.len(), 1);
}

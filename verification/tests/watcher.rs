use keywatch::attach::{after_open, OpenDecision, OpenFailurePolicy, OpenOrigin};
use keywatch::registry::ReaderRegistry;
use keywatch::watcher::{watcher_step, Notification, Received, WatchAction, DEBOUNCE_MILLIS};

fn path(name: &str) -> Vec<u8> {
    name.as_bytes().to_vec()
}

#[test]
fn the_debounce_window_is_a_tenth_of_a_second() {
    assert_eq!(DEBOUNCE_MILLIS, 100);
}

#[test]
fn a_created_keyboard_is_opened() {
    let mut registry = ReaderRegistry::new();
    let created = Received::Event(Notification::Create(path("/dev/input/by-id/kbd0-event-kbd")));
    assert_eq!(watcher_step(&mut registry, &created), WatchAction::OpenDevice);
    assert!(registry.is_active(b"/dev/input/by-id/kbd0-event-kbd"));
}

#[test]
fn a_created_entry_that_is_no_keyboard_is_ignored() {
    let mut registry = ReaderRegistry::new();
    let created = Received::Event(Notification::Create(path("/dev/input/by-id/m0-event-mouse")));
    assert_eq!(watcher_step(&mut registry, &created), WatchAction::Ignore);
    assert_eq!(registry.len(), 0);
}

#[test]
fn every_other_kind_of_notification_is_ignored() {
    let kbd = "/dev/input/by-id/kbd0-event-kbd";
    let others = vec![
        Notification::NoticeWrite(path(kbd)),
        Notification::NoticeRemove(path(kbd)),
        Notification::Write(path(kbd)),
        Notification::Chmod(path(kbd)),
        Notification::Remove(path(kbd)),
        Notification::Rename(path(kbd), path(kbd)),
        Notification::Rename(path("old"), path(kbd)),
        Notification::Rescan,
        Notification::Error,
    ];
    for other in others {
        let mut registry = ReaderRegistry::new();
        assert_eq!(watcher_step(&mut registry, &Received::Event(other)), WatchAction::Ignore);
        assert_eq!(registry.len(), 0);
    }
}

#[test]
fn a_lost_notification_is_reported_and_the_watcher_goes_on() {
    let mut registry = ReaderRegistry::new();
    assert_eq!(watcher_step(&mut registry, &Received::Lost), WatchAction::ReportLoss);
    assert_eq!(watcher_step(&mut registry, &Received::Lost), WatchAction::ReportLoss);
    assert_eq!(registry.len(), 0);
    let created = Received::Event(Notification::Create(path("kbd0-event-kbd")));
    assert_eq!(watcher_step(&mut registry, &created), WatchAction::OpenDevice);
}

#[test]
fn two_bursts_for_one_entry_open_it_once() {
    let mut registry = ReaderRegistry::new();
    let created = Received::Event(Notification::Create(path("kbd0-event-kbd")));
    let mut opens = 0;
    for _ in 0..2 {
        for _ in 0..5 {
            if watcher_step(&mut registry, &created) == WatchAction::OpenDevice {
                opens += 1;
            }
        }
    }
    assert_eq!(opens, 1);
    assert_eq!(registry.len(), 1);
}

#[test]
fn a_keyboard_that_discovery_attached_is_not_opened_by_the_watcher() {
    let mut registry = ReaderRegistry::new();
    assert!(registry.claim(b"kbd0-event-kbd"));
    let created = Received::Event(Notification::Create(path("kbd0-event-kbd")));
    assert_eq!(watcher_step(&mut registry, &created), WatchAction::Ignore);
}

#[test]
fn a_keyboard_is_opened_again_after_its_reader_ended() {
    let mut registry = ReaderRegistry::new();
    let created = Received::Event(Notification::Create(path("kbd0-event-kbd")));
    assert_eq!(watcher_step(&mut registry, &created), WatchAction::OpenDevice);
    let decision = after_open(
        &mut registry,
        b"kbd0-event-kbd",
        OpenOrigin::HotPlug,
        OpenFailurePolicy::default(),
        true,
    );
    assert_eq!(decision, OpenDecision::StartReader);
    assert_eq!(watcher_step(&mut registry, &created), WatchAction::Ignore);
    assert!(registry.release(b"kbd0-event-kbd"));
    assert_eq!(watcher_step(&mut registry, &created), WatchAction::OpenDevice);
}

#[test]
fn a_plugged_keyboard_that_cannot_be_opened_is_passed_over_by_default() {
    let mut registry = ReaderRegistry::new();
    let created = Received::Event(Notification::Create(path("kbd0-event-kbd")));
    assert_eq!(watcher_step(&mut registry, &created), WatchAction::OpenDevice);
    let decision = after_open(
        &mut registry,
        b"kbd0-event-kbd",
        OpenOrigin::HotPlug,
        OpenFailurePolicy::default(),
        false,
    );
    assert_eq!(decision, OpenDecision::Skip);
    let other = Received::Event(Notification::Create(path("kbd1-event-kbd")));
    assert_eq!(watcher_step(&mut registry, &other), WatchAction::OpenDevice);
}

#[test]
fn created_keyboards_are_opened_in_the_order_of_the_notifications() {
    let notes = vec![
        Received::Event(Notification::Create(path("kbd2-event-kbd"))),
        Received::Event(Notification::Write(path("kbd9-event-kbd"))),
        Received::Event(Notification::Create(path("mouse0-event-mouse"))),
        Received::Lost,
        Received::Event(Notification::Create(path("kbd0-event-kbd"))),
        Received::Event(Notification::Remove(path("kbd2-event-kbd"))),
        Received::Event(Notification::Create(path("kbd1-event-kbd"))),
    ];
    let mut registry = ReaderRegistry::new();
    let mut opened: Vec<Vec<u8>> = Vec::new();
    let mut started: Vec<Vec<u8>> = Vec::new();
    for note in &notes {
        if watcher_step(&mut registry, note) == WatchAction::OpenDevice {
            let created = match note {
                Received::Event(Notification::Create(created)) => created.clone(),
                _ => unreachable!(),
            };
            opened.push(created.clone());
            let decision = after_open(
                &mut registry,
                &created,
                OpenOrigin::HotPlug,
                OpenFailurePolicy::default(),
                true,
            );
            if decision == OpenDecision::StartReader {
                started.push(created);
            }
        }
    }
    let expected = vec![path("kbd2-event-kbd"), path("kbd0-event-kbd"), path("kbd1-event-kbd")];
    assert_eq!(opened, expected);
    assert_eq!(started, expected);
}

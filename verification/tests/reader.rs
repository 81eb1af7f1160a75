use keywatch::event::{RawEvent, Transition, EV_KEY};
use keywatch::reader::{
    classify_failure, reader_step, FetchOutcome, ReaderState, Severity, Termination,
    REMOVAL_MARKER,
};

#[test]
fn removal_marker_is_the_fixed_literal() {
    assert_eq!(REMOVAL_MARKER, "No such device");
}

#[test]
fn removal_errors_are_told_by_their_text() {
    assert_eq!(classify_failure("No such device (os error 19)"), Termination::Removed);
    assert_eq!(classify_failure("No such device"), Termination::Removed);
    assert_eq!(classify_failure("read failed: No such device, again"), Termination::Removed);
}

#[test]
fn other_errors_are_failures() {
    assert_eq!(classify_failure(""), Termination::Failed);
    assert_eq!(classify_failure("Permission denied (os error 13)"), Termination::Failed);
    assert_eq!(classify_failure("no such device"), Termination::Failed);
    assert_eq!(classify_failure("No such devic"), Termination::Failed);
    assert_eq!(classify_failure("No such file or directory (os error 2)"), Termination::Failed);
    assert_eq!(classify_failure("Ger\u{e4}t nicht vorhanden"), Termination::Failed);
}

#[test]
fn removal_marker_is_found_among_wider_characters() {
    assert_eq!(classify_failure("\u{2192} No such device \u{2190}"), Termination::Removed);
}

#[test]
fn the_text_of_the_system_error_is_removal_class() {
    let text = std::io::Error::from_raw_os_error(19).to_string();
    assert_eq!(classify_failure(&text), Termination::Removed);
    let other = std::io::Error::from_raw_os_error(5).to_string();
    assert_eq!(classify_failure(&other), Termination::Failed);
}

#[test]
fn severity_of_the_two_ends() {
    assert_eq!(Termination::Removed.severity(), Severity::Debug);
    assert_eq!(Termination::Failed.severity(), Severity::Error);
}

#[test]
fn only_running_is_running() {
    assert!(ReaderState::Running.is_running());
    assert!(!ReaderState::Terminated(Termination::Removed).is_running());
    assert!(!ReaderState::Terminated(Termination::Failed).is_running());
}

#[test]
fn a_running_reader_sends_the_keys_of_a_batch() {
    let batch = FetchOutcome::Batch(vec![
        RawEvent::new(4, 4, 30),
        RawEvent::new(EV_KEY, 30, 1),
        RawEvent::new(0, 0, 0),
        RawEvent::new(EV_KEY, 30, 0),
    ]);
    let step = reader_step(ReaderState::Running, &batch);
    assert_eq!(step.next, ReaderState::Running);
    assert_eq!(step.messages.len(), 2);
    assert_eq!(step.messages[0].text, "Key(KEY_A)");
    assert_eq!(step.messages[0].event.transition, Transition::Pressed);
    assert_eq!(step.messages[1].event.transition, Transition::Released);
}

#[test]
fn an_empty_batch_sends_nothing_and_goes_on() {
    let step = reader_step(ReaderState::Running, &FetchOutcome::Batch(Vec::new()));
    assert_eq!(step.next, ReaderState::Running);
    assert!(step.messages.is_empty());
}

#[test]
fn removal_ends_the_reader_without_a_message() {
    let gone = FetchOutcome::Failed(String::from("No such device (os error 19)"));
    let step = reader_step(ReaderState::Running, &gone);
    assert_eq!(step.next, ReaderState::Terminated(Termination::Removed));
    assert!(step.messages.is_empty());
}

#[test]
fn another_error_ends_the_reader_as_failed() {
    let broken = FetchOutcome::Failed(String::from("Input/output error (os error 5)"));
    let step = reader_step(ReaderState::Running, &broken);
    assert_eq!(step.next, ReaderState::Terminated(Termination::Failed));
    assert!(step.messages.is_empty());
}

#[test]
fn a_terminated_reader_stays_silent() {
    let keys = FetchOutcome::Batch(vec![RawEvent::new(EV_KEY, 30, 1)]);
    let gone = FetchOutcome::Failed(String::from("No such device (os error 19)"));
    let broken = FetchOutcome::Failed(String::from("Input/output error (os error 5)"));
    for end in [Termination::Removed, Termination::Failed] {
        for outcome in [&keys, &gone, &broken] {
            let step = reader_step(ReaderState::Terminated(end), outcome);
            assert_eq!(step.next, ReaderState::Terminated(end));
            assert!(step.messages.is_empty());
        }
    }
}

#[test]
fn a_reader_runs_until_its_device_is_removed() {
    let outcomes = vec![
        FetchOutcome::Batch(vec![RawEvent::new(EV_KEY, 16, 1), RawEvent::new(0, 0, 0)]),
        FetchOutcome::Batch(vec![RawEvent::new(EV_KEY, 16, 0), RawEvent::new(0, 0, 0)]),
        FetchOutcome::Failed(String::from("No such device (os error 19)")),
        FetchOutcome::Batch(vec![RawEvent::new(EV_KEY, 17, 1)]),
    ];
    let mut state = ReaderState::Running;
    let mut sent = Vec::new();
    for outcome in &outcomes {
        let step = reader_step(state, outcome);
        sent.extend(step.messages.into_iter().map(|m| (m.text, m.event.transition)));
        state = step.next;
    }
    assert_eq!(state, ReaderState::Terminated(Termination::Removed));
    assert_eq!(
        sent,
        vec![
            (String::from("Key(KEY_Q)"), Transition::Pressed),
            (String::from("Key(KEY_Q)"), Transition::Released),
        ]
    );
}

#[test]
fn readers_do_not_touch_each_other() {
    let mut first = ReaderState::Running;
    let mut second = ReaderState::Running;
    let gone = FetchOutcome::Failed(String::from("No such device (os error 19)"));
    first = reader_step(first, &gone).next;
    let keys = FetchOutcome::Batch(vec![RawEvent::new(EV_KEY, 57, 1)]);
    let step = reader_step(second, &keys);
    second = step.next;
    assert_eq!(first, ReaderState::Terminated(Termination::Removed));
    assert_eq!(second, ReaderState::Running);
    assert_eq!(step.messages.len(), 1);
    assert_eq!(step.messages[0].text, "Key(KEY_SPACE)");
}

//! The directory watcher: which notifications of a change in the device
//! directory lead to the opening of a device.
//!
//! The caller subscribes to the directory, without its subdirectories, with
//! a debounce window of [`DEBOUNCE_MILLIS`], blocks on the next notification
//! and hands it to [`watcher_step`]. The watcher has no end of its own: a
//! notification that cannot be received is reported and the watcher goes on.

use crate::attach::{
    attach_claims, consider_entry, open_decision, should_attach, OpenDecision, OpenFailurePolicy,
    OpenOrigin,
};
use crate::event::{messages_of, RawEvent};
use crate::filter::is_keyboard_name;
use crate::reader::{step, FetchView, ReaderState};
use crate::registry::ReaderRegistry;
use vstd::prelude::*;

verus! {

/// The time, in milliseconds, within which repeated notifications of one
/// change are taken together.
pub const DEBOUNCE_MILLIS: u64 = 100;

/// A debounced notification of a change in the watched directory, with the
/// bytes of the paths that it names.
#[derive(Clone, Debug, PartialEq, Eq)]
pub enum Notification {
    NoticeWrite(Vec<u8>),
    NoticeRemove(Vec<u8>),
    Create(Vec<u8>),
    Write(Vec<u8>),
    Chmod(Vec<u8>),
    Remove(Vec<u8>),
    Rename(Vec<u8>, Vec<u8>),
    Rescan,
    Error,
}

/// What waiting for the next notification came back with.
#[derive(Clone, Debug, PartialEq, Eq)]
pub enum Received {
    Event(Notification),
    /// The notification could not be received.
    Lost,
}

/// What the watcher does on what it received.
#[derive(Clone, Copy, Debug, PartialEq, Eq, Structural)]
pub enum WatchAction {
    /// The created entry is a keyboard without a reader: open it.
    OpenDevice,
    /// Nothing to do.
    Ignore,
    /// Report that a notification was lost, and go on.
    ReportLoss,
}

/// The path that a notification reports as created, if it reports that.
pub open spec fn created_path(received: Received) -> Option<Seq<u8>> {
    match received {
        Received::Event(Notification::Create(path)) => Some(path@),
        _ => None,
    }
}

/// What the watcher does: it opens a created keyboard that no reader holds,
/// reports a loss, and ignores everything else.
pub open spec fn watch_action(active: Set<Seq<u8>>, received: Received) -> WatchAction {
    match received {
        Received::Lost => WatchAction::ReportLoss,
        Received::Event(_) => match created_path(received) {
            Some(path) => if should_attach(active, path) {
                WatchAction::OpenDevice
            } else {
                WatchAction::Ignore
            },
            None => WatchAction::Ignore,
        },
    }
}

/// The claimed paths after the watcher has dealt with what it received.
pub open spec fn watch_claims(active: Set<Seq<u8>>, received: Received) -> Set<Seq<u8>> {
    match created_path(received) {
        Some(path) => attach_claims(active, path),
        None => active,
    }
}

/// The path that a notification reports as created, if that path denotes a
/// keyboard.
pub open spec fn created_keyboard(received: Received) -> Option<Seq<u8>> {
    match created_path(received) {
        Some(path) => if is_keyboard_name(path) {
            Some(path)
        } else {
            None
        },
        None => None,
    }
}

/// The keyboards that a sequence of notifications reports as created, in the
/// order of the notifications.
pub open spec fn created_keyboards(notes: Seq<Received>) -> Seq<Seq<u8>> {
    notes.filter_map(|received: Received| created_keyboard(received))
}

/// The claimed paths after the watcher has dealt with a sequence of
/// notifications, when no claim is given up on the way: every open succeeds
/// and every reader goes on.
pub open spec fn claims_after(active: Set<Seq<u8>>, notes: Seq<Received>) -> Set<Seq<u8>>
    decreases notes.len(),
{
    if notes.len() == 0 {
        active
    } else {
        watch_claims(claims_after(active, notes.drop_last()), notes.last())
    }
}

/// The paths that the watcher opens on a sequence of notifications, in the
/// order of the opens, when no claim is given up on the way.
pub open spec fn watch_opens(active: Set<Seq<u8>>, notes: Seq<Received>) -> Seq<Seq<u8>>
    decreases notes.len(),
{
    if notes.len() == 0 {
        Seq::empty()
    } else {
        let before = notes.drop_last();
        match created_path(notes.last()) {
            Some(path) => if watch_action(claims_after(active, before), notes.last())
                == WatchAction::OpenDevice {
                watch_opens(active, before).push(path)
            } else {
                watch_opens(active, before)
            },
            None => watch_opens(active, before),
        }
    }
}

/// Every keyboard that the notifications report as created is new: no reader
/// holds it and no earlier notification reports it.
pub open spec fn reports_new_keyboards(active: Set<Seq<u8>>, notes: Seq<Received>) -> bool {
    &&& forall|i: int|
        0 <= i < notes.len() && created_keyboard(#[trigger] notes[i]).is_some()
            ==> !active.contains(created_keyboard(notes[i]).unwrap())
    &&& forall|i: int, j: int|
        0 <= j < i < notes.len() && created_keyboard(#[trigger] notes[i]).is_some()
            ==> created_keyboard(#[trigger] notes[j]) != created_keyboard(notes[i])
}

/// One step of the watcher on what it received. For `OpenDevice` the path of
/// the created entry is claimed; the caller opens the device and hands the
/// result to `after_open`.
pub fn watcher_step(registry: &mut ReaderRegistry, received: &Received) -> (action: WatchAction)
    ensures
        action == watch_action(old(registry)@, *received),
        final(registry)@ == watch_claims(old(registry)@, *received),
{
    match received {
        Received::Lost => WatchAction::ReportLoss,
        Received::Event(Notification::Create(path)) => {
            if consider_entry(registry, path.as_slice()) {
                WatchAction::OpenDevice
            } else {
                WatchAction::Ignore
            }
        },
        Received::Event(_) => WatchAction::Ignore,
    }
}

/// A device that is plugged in gets a reader, and what it then delivers
/// reaches the consumer: the creation of a keyboard entry that no reader
/// holds makes the watcher open it, a successful open starts a reader, and
/// the running reader sends the messages of the first batch. The creation of
/// any other entry opens nothing and claims nothing.
pub proof fn lemma_hot_plug(
    active: Set<Seq<u8>>,
    path: Vec<u8>,
    policy: OpenFailurePolicy,
    events: Seq<RawEvent>,
)
    ensures
        watch_action(active, Received::Event(Notification::Create(path)))
            == WatchAction::OpenDevice <==> is_keyboard_name(path@) && !active.contains(path@),
        open_decision(OpenOrigin::HotPlug, policy, true) == OpenDecision::StartReader,
        step(ReaderState::Running, FetchView::Batch(events)).messages == messages_of(events),
        !is_keyboard_name(path@) ==> watch_claims(
            active,
            Received::Event(Notification::Create(path)),
        ) == active,
{
}

/// Only the creation of an entry opens a device: on any other notification,
/// and on a lost one, nothing is opened and no claim changes.
pub proof fn lemma_other_notifications_open_nothing(active: Set<Seq<u8>>, received: Received)
    requires
        created_path(received).is_none(),
    ensures
        watch_action(active, received) != WatchAction::OpenDevice,
        watch_claims(active, received) == active,
{
}

/// A path is claimed after a sequence of notifications exactly when it was
/// claimed before or one of the notifications reports it as a created
/// keyboard.
pub proof fn lemma_claims_after(active: Set<Seq<u8>>, notes: Seq<Received>, path: Seq<u8>)
    ensures
        claims_after(active, notes).contains(path) <==> active.contains(path) || exists|i: int|
            0 <= i < notes.len() && created_keyboard(#[trigger] notes[i]) == Some(path),
    decreases notes.len(),
{
    if notes.len() > 0 {
        let before = notes.drop_last();
        lemma_claims_after(active, before, path);
        if claims_after(active, notes).contains(path) && !active.contains(path) {
            if claims_after(active, before).contains(path) {
                let i = choose|i: int|
                    0 <= i < before.len() && created_keyboard(#[trigger] before[i]) == Some(path);
                assert(created_keyboard(notes[i]) == Some(path));
            } else {
                assert(created_keyboard(notes[notes.len() - 1]) == Some(path));
            }
        }
        if exists|i: int|
            0 <= i < notes.len() && created_keyboard(#[trigger] notes[i]) == Some(path) {
            let i = choose|i: int|
                0 <= i < notes.len() && created_keyboard(#[trigger] notes[i]) == Some(path);
            if i < before.len() {
                assert(created_keyboard(before[i]) == Some(path));
            } else {
                assert(notes.last() == notes[i]);
            }
        }
    }
}

/// While every open succeeds, the watcher opens each keyboard that is
/// reported as created and was not there before, once and in the order of
/// the notifications, and starts a reader for it; it opens nothing else.
pub proof fn lemma_watcher_opens_each_created_keyboard(
    active: Set<Seq<u8>>,
    notes: Seq<Received>,
    policy: OpenFailurePolicy,
)
    requires
        reports_new_keyboards(active, notes),
    ensures
        watch_opens(active, notes) == created_keyboards(notes),
        open_decision(OpenOrigin::HotPlug, policy, true) == OpenDecision::StartReader,
    decreases notes.len(),
{
    if notes.len() > 0 {
        let before = notes.drop_last();
        let last = notes.last();
        assert forall|i: int| 0 <= i < before.len() implies before[i] == notes[i] by {}
        assert(reports_new_keyboards(active, before)) by {
            assert forall|i: int|
                0 <= i < before.len() && created_keyboard(
                    #[trigger] before[i],
                ).is_some() implies !active.contains(created_keyboard(before[i]).unwrap()) by {
                assert(before[i] == notes[i]);
            }
            assert forall|i: int, j: int|
                0 <= j < i < before.len() && created_keyboard(
                    #[trigger] before[i],
                ).is_some() implies created_keyboard(#[trigger] before[j]) != created_keyboard(
                before[i],
            ) by {
                assert(before[i] == notes[i]);
                assert(before[j] == notes[j]);
            }
        }
        lemma_watcher_opens_each_created_keyboard(active, before, policy);
        assert(last == notes[notes.len() - 1]);
        match created_keyboard(last) {
            Some(path) => {
                lemma_claims_after(active, before, path);
                assert(!active.contains(path));
                if claims_after(active, before).contains(path) {
                    let i = choose|i: int|
                        0 <= i < before.len() && created_keyboard(#[trigger] before[i]) == Some(
                            path,
                        );
                    assert(before[i] == notes[i]);
                    assert(created_keyboard(notes[i]) != created_keyboard(notes[notes.len() - 1]));
                }
                assert(watch_opens(active, notes) =~= created_keyboards(before) + seq![path]);
            },
            None => {},
        }
    }
}

/// The claims after notifications of the creation of one entry.
proof fn lemma_burst_claims(active: Set<Seq<u8>>, path: Seq<u8>, burst: Seq<Received>)
    requires
        forall|i: int| 0 <= i < burst.len() ==> created_path(#[trigger] burst[i]) == Some(path),
    ensures
        claims_after(active, burst) == if burst.len() > 0 {
            attach_claims(active, path)
        } else {
            active
        },
    decreases burst.len(),
{
    if burst.len() > 0 {
        let before = burst.drop_last();
        assert forall|i: int| 0 <= i < before.len() implies created_path(#[trigger] before[i])
            == Some(path) by {
            assert(before[i] == burst[i]);
        }
        lemma_burst_claims(active, path, before);
        assert(created_path(burst[burst.len() - 1]) == Some(path));
    }
}

/// Notifications of the creation of one entry, however many arrive, lead to
/// at most one open while the claim on the entry stands: to one when the
/// entry is a keyboard that no reader held, to none otherwise.
pub proof fn lemma_burst_opens_once(active: Set<Seq<u8>>, path: Seq<u8>, burst: Seq<Received>)
    requires
        forall|i: int| 0 <= i < burst.len() ==> created_path(#[trigger] burst[i]) == Some(path),
    ensures
        watch_opens(active, burst) == if burst.len() > 0 && should_attach(active, path) {
            seq![path]
        } else {
            Seq::empty()
        },
        watch_opens(active, burst).len() <= 1,
    decreases burst.len(),
{
    if burst.len() > 0 {
        let before = burst.drop_last();
        assert forall|i: int| 0 <= i < before.len() implies created_path(#[trigger] before[i])
            == Some(path) by {
            assert(before[i] == burst[i]);
        }
        lemma_burst_opens_once(active, path, before);
        lemma_burst_claims(active, path, before);
        assert(created_path(burst[burst.len() - 1]) == Some(path));
        if should_attach(active, path) {
            if before.len() == 0 {
                assert(watch_opens(active, burst) =~= seq![path]);
            }
        }
    }
}

} // verus!

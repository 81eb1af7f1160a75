//! Attaching a device: the claim on its path before it is opened, and what
//! follows once the open has succeeded or failed.

use crate::filter::{is_keyboard_device, is_keyboard_name};
use crate::registry::ReaderRegistry;
use vstd::prelude::*;

verus! {

/// Who found the entry that is opened.
#[derive(Clone, Copy, Debug, PartialEq, Eq, Structural)]
pub enum OpenOrigin {
    /// The scan of the directory at startup.
    Discovery,
    /// A notification that the entry was created.
    HotPlug,
}

/// What the watcher does when a device that was plugged in cannot be opened.
#[derive(Clone, Copy, Debug, PartialEq, Eq, Structural)]
pub enum OpenFailurePolicy {
    /// The entry is reported and passed over, as discovery does.
    Skip,
    /// The watcher ends.
    Abort,
}

/// What follows an attempt to open a device.
#[derive(Clone, Copy, Debug, PartialEq, Eq, Structural)]
pub enum OpenDecision {
    /// The device is open: a reader is started for it.
    StartReader,
    /// The device could not be opened: the failure is reported and the caller
    /// goes on with the next entry or notification.
    Skip,
    /// The device could not be opened and the watcher ends.
    Abort,
}

impl Default for OpenFailurePolicy {
    /// Failures are passed over unless the caller asks for more.
    fn default() -> (policy: OpenFailurePolicy)
        ensures
            policy == OpenFailurePolicy::Skip,
    {
        OpenFailurePolicy::Skip
    }
}

/// An entry is opened when it is a keyboard that no reader holds.
pub open spec fn should_attach(active: Set<Seq<u8>>, entry: Seq<u8>) -> bool {
    is_keyboard_name(entry) && !active.contains(entry)
}

/// The claimed paths after an entry has been considered.
pub open spec fn attach_claims(active: Set<Seq<u8>>, entry: Seq<u8>) -> Set<Seq<u8>> {
    if should_attach(active, entry) {
        active.insert(entry)
    } else {
        active
    }
}

/// What follows an open. Discovery passes over every failure; the watcher
/// does as its policy says.
pub open spec fn open_decision(
    origin: OpenOrigin,
    policy: OpenFailurePolicy,
    opened: bool,
) -> OpenDecision {
    if opened {
        OpenDecision::StartReader
    } else if origin == OpenOrigin::HotPlug && policy == OpenFailurePolicy::Abort {
        OpenDecision::Abort
    } else {
        OpenDecision::Skip
    }
}

/// The claimed paths after an open: a failed open gives the claim up.
pub open spec fn open_claims(active: Set<Seq<u8>>, entry: Seq<u8>, opened: bool) -> Set<Seq<u8>> {
    if opened {
        active
    } else {
        active.remove(entry)
    }
}

/// Decides whether an entry is opened, and claims its path if it is. An entry
/// that is no keyboard, or whose path a reader holds, is never opened.
pub fn consider_entry(registry: &mut ReaderRegistry, entry: &[u8]) -> (attempt: bool)
    ensures
        attempt == should_attach(old(registry)@, entry@),
        final(registry)@ == attach_claims(old(registry)@, entry@),
{
    if is_keyboard_device(entry) {
        let claimed = registry.claim(entry);
        assert(!claimed ==> old(registry)@.insert(entry@) =~= old(registry)@);
        claimed
    } else {
        false
    }
}

/// Decides what follows the attempt to open `entry`. On success a reader is
/// started and keeps the claim; on failure the claim is given up.
pub fn after_open(
    registry: &mut ReaderRegistry,
    entry: &[u8],
    origin: OpenOrigin,
    policy: OpenFailurePolicy,
    opened: bool,
) -> (decision: OpenDecision)
    ensures
        decision == open_decision(origin, policy, opened),
        final(registry)@ == open_claims(old(registry)@, entry@, opened),
{
    if opened {
        return OpenDecision::StartReader;
    }
    registry.release(entry);
    match (origin, policy) {
        (OpenOrigin::HotPlug, OpenFailurePolicy::Abort) => OpenDecision::Abort,
        _ => OpenDecision::Skip,
    }
}

/// One failed open takes nothing from the others: whether a reader is started
/// for an entry depends on the open of that entry alone, and a failure
/// touches no claim but its own.
pub proof fn lemma_open_failures_are_isolated(
    active: Set<Seq<u8>>,
    entry: Seq<u8>,
    other: Seq<u8>,
    origin: OpenOrigin,
    policy: OpenFailurePolicy,
    opened: bool,
)
    requires
        other != entry,
    ensures
        open_decision(origin, policy, opened) == OpenDecision::StartReader <==> opened,
        origin == OpenOrigin::Discovery ==> open_decision(origin, policy, opened)
            != OpenDecision::Abort,
        policy == OpenFailurePolicy::Skip ==> open_decision(origin, policy, opened)
            != OpenDecision::Abort,
        open_claims(active, entry, opened).contains(other) == active.contains(other),
{
}

} // verus!

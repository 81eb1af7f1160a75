//! The life of one reader: it pumps the events of a single device until the
//! device disappears or a read fails.
//!
//! A reader starts `Running`. The caller blocks on the device, hands what the
//! read came back with to [`reader_step`], sends the messages of the step to
//! the channel, and goes on while the state is `Running`. A send that fails
//! does not enter the step: it is lost and the reader goes on.

use crate::bytes::{contains_bytes, has_infix};
use crate::event::{decode_batch, message_views, messages_of, ChannelMessage, MessageView, RawEvent};
use vstd::prelude::*;
use vstd::string::StringSliceAdditionalSpecFns;
use vstd::utf8::encode_utf8;

verus! {

/// The words by which the text of a read error tells that the device node no
/// longer exists.
pub const REMOVAL_MARKER: &'static str = "No such device";

/// Why a reader ended.
#[derive(Clone, Copy, Debug, PartialEq, Eq, Structural)]
pub enum Termination {
    /// The device was removed: the expected end of a reader.
    Removed,
    /// A read failed for another reason.
    Failed,
}

/// The state of a reader.
#[derive(Clone, Copy, Debug, PartialEq, Eq, Structural)]
pub enum ReaderState {
    Running,
    Terminated(Termination),
}

/// How loudly an event of the engine is reported.
#[derive(Clone, Copy, Debug, PartialEq, Eq, Structural)]
pub enum Severity {
    Debug,
    Error,
}

/// What one blocking read on a device came back with.
#[derive(Clone, Debug, PartialEq, Eq)]
pub enum FetchOutcome {
    /// The raw events of one read, in the order of their arrival.
    Batch(Vec<RawEvent>),
    /// The read failed; the text is that of the error.
    Failed(String),
}

/// A [`FetchOutcome`] as a mathematical value.
pub enum FetchView {
    Batch(Seq<RawEvent>),
    Failed(Seq<char>),
}

impl View for FetchOutcome {
    type V = FetchView;

    open spec fn view(&self) -> FetchView {
        match self {
            FetchOutcome::Batch(events) => FetchView::Batch(events@),
            FetchOutcome::Failed(text) => FetchView::Failed(text@),
        }
    }
}

/// What a reader does on one outcome: the state it goes to and the messages
/// it sends, in their order.
#[derive(Debug)]
pub struct ReaderStep {
    pub next: ReaderState,
    pub messages: Vec<ChannelMessage>,
}

/// A [`ReaderStep`] as a mathematical value.
pub struct StepView {
    pub next: ReaderState,
    pub messages: Seq<MessageView>,
}

impl View for ReaderStep {
    type V = StepView;

    open spec fn view(&self) -> StepView {
        StepView { next: self.next, messages: message_views(self.messages@) }
    }
}

/// The bytes of [`REMOVAL_MARKER`].
pub open spec fn removal_marker() -> Seq<u8> {
    REMOVAL_MARKER.spec_bytes()
}

/// The marker, byte by byte.
pub proof fn lemma_removal_marker_bytes()
    ensures
        removal_marker() == seq![
            78u8, 111u8, 32u8, 115u8, 117u8, 99u8, 104u8, 32u8, 100u8, 101u8, 118u8, 105u8, 99u8,
            101u8,
        ],
{
    reveal_strlit("No such device");
    vstd::string::is_ascii_spec_bytes(REMOVAL_MARKER);
    assert(removal_marker() =~= seq![
        78u8, 111u8, 32u8, 115u8, 117u8, 99u8, 104u8, 32u8, 100u8, 101u8, 118u8, 105u8, 99u8,
        101u8,
    ]);
}

/// An error text is removal-class when its UTF-8 bytes hold the marker.
pub open spec fn is_removal_text(text: Seq<char>) -> bool {
    has_infix(encode_utf8(text), removal_marker())
}

/// How a failed read ends the reader.
pub open spec fn failure_class(text: Seq<char>) -> Termination {
    if is_removal_text(text) {
        Termination::Removed
    } else {
        Termination::Failed
    }
}

/// One step of a reader. A terminated reader stays as it is and sends
/// nothing. A running reader sends the messages of a batch and goes on, or
/// ends on a failed read without a message.
pub open spec fn step(state: ReaderState, outcome: FetchView) -> StepView {
    match state {
        ReaderState::Terminated(_) => StepView { next: state, messages: Seq::empty() },
        ReaderState::Running => match outcome {
            FetchView::Batch(events) => StepView {
                next: ReaderState::Running,
                messages: messages_of(events),
            },
            FetchView::Failed(text) => StepView {
                next: ReaderState::Terminated(failure_class(text)),
                messages: Seq::empty(),
            },
        },
    }
}

/// The steps of a reader over a sequence of outcomes: where it ends and all
/// that it sent on the way.
pub open spec fn run(state: ReaderState, outcomes: Seq<FetchView>) -> StepView
    decreases outcomes.len(),
{
    if outcomes.len() == 0 {
        StepView { next: state, messages: Seq::empty() }
    } else {
        let before = run(state, outcomes.drop_last());
        let last = step(before.next, outcomes.last());
        StepView { next: last.next, messages: before.messages + last.messages }
    }
}

impl Termination {
    /// The severity at which the end of a reader is reported.
    pub open spec fn spec_severity(self) -> Severity {
        match self {
            Termination::Removed => Severity::Debug,
            Termination::Failed => Severity::Error,
        }
    }

    /// The severity at which the end of a reader is reported: a removal is
    /// expected, any other end is an error.
    #[verifier::when_used_as_spec(spec_severity)]
    pub fn severity(self) -> (s: Severity)
        ensures
            s == self.spec_severity(),
    {
        match self {
            Termination::Removed => Severity::Debug,
            Termination::Failed => Severity::Error,
        }
    }
}

impl ReaderState {
    pub open spec fn spec_is_running(self) -> bool {
        self == ReaderState::Running
    }

    /// Whether the reader still reads its device.
    #[verifier::when_used_as_spec(spec_is_running)]
    pub fn is_running(self) -> (r: bool)
        ensures
            r == self.spec_is_running(),
    {
        match self {
            ReaderState::Running => true,
            ReaderState::Terminated(_) => false,
        }
    }
}

/// Classifies the error of a failed read by its text.
pub fn classify_failure(text: &str) -> (t: Termination)
    ensures
        t == failure_class(text@),
{
    if contains_bytes(text.as_bytes(), REMOVAL_MARKER.as_bytes()) {
        Termination::Removed
    } else {
        Termination::Failed
    }
}

/// Takes a reader one step further on what the read of its device came back
/// with.
pub fn reader_step(state: ReaderState, outcome: &FetchOutcome) -> (taken: ReaderStep)
    ensures
        taken@ == step(state, outcome@),
{
    match state {
        ReaderState::Terminated(_) => {
            let taken = ReaderStep { next: state, messages: Vec::new() };
            assert(message_views(taken.messages@) =~= Seq::empty());
            taken
        },
        ReaderState::Running => match outcome {
            FetchOutcome::Batch(events) => ReaderStep {
                next: ReaderState::Running,
                messages: decode_batch(events.as_slice()),
            },
            FetchOutcome::Failed(text) => {
                let taken = ReaderStep {
                    next: ReaderState::Terminated(classify_failure(text.as_str())),
                    messages: Vec::new(),
                };
                assert(message_views(taken.messages@) =~= Seq::empty());
                taken
            },
        },
    }
}

/// A reader that has ended stays ended and never sends again, whatever its
/// device delivers afterwards.
pub proof fn lemma_terminated_is_silent(end: Termination, outcomes: Seq<FetchView>)
    ensures
        run(ReaderState::Terminated(end), outcomes) == (StepView {
            next: ReaderState::Terminated(end),
            messages: Seq::empty(),
        }),
    decreases outcomes.len(),
{
    if outcomes.len() > 0 {
        lemma_terminated_is_silent(end, outcomes.drop_last());
        assert(Seq::<MessageView>::empty() + Seq::<MessageView>::empty() =~= Seq::<
            MessageView,
        >::empty());
    }
}

/// Running over two sequences of outcomes one after the other is running over
/// the first and then, from where that ended, over the second.
pub proof fn lemma_run_concat(state: ReaderState, first: Seq<FetchView>, second: Seq<FetchView>)
    ensures
        run(state, first + second).next == run(run(state, first).next, second).next,
        run(state, first + second).messages == run(state, first).messages + run(
            run(state, first).next,
            second,
        ).messages,
    decreases second.len(),
{
    if second.len() == 0 {
        assert(first + second =~= first);
        assert(run(state, first).messages + Seq::<MessageView>::empty() =~= run(
            state,
            first,
        ).messages);
    } else {
        lemma_run_concat(state, first, second.drop_last());
        assert((first + second).drop_last() =~= first + second.drop_last());
        assert((first + second).last() == second.last());
        let middle = run(state, first).next;
        let last = step(run(middle, second.drop_last()).next, second.last());
        assert(run(state, first + second).messages =~= run(state, first).messages + (run(
            middle,
            second.drop_last(),
        ).messages + last.messages));
    }
}

/// A failed read ends a running reader for good: whatever came before and
/// whatever comes after, the reader has sent what it had sent before the
/// failure and nothing else, and it has ended as the error text says, as
/// `Removed` when the text is removal-class.
pub proof fn lemma_failure_ends_the_reader(
    before: Seq<FetchView>,
    text: Seq<char>,
    after: Seq<FetchView>,
)
    requires
        run(ReaderState::Running, before).next == ReaderState::Running,
    ensures
        run(ReaderState::Running, before.push(FetchView::Failed(text)) + after).messages == run(
            ReaderState::Running,
            before,
        ).messages,
        run(ReaderState::Running, before.push(FetchView::Failed(text)) + after).next
            == ReaderState::Terminated(failure_class(text)),
        is_removal_text(text) ==> run(
            ReaderState::Running,
            before.push(FetchView::Failed(text)) + after,
        ).next == ReaderState::Terminated(Termination::Removed),
{
    let failed = before.push(FetchView::Failed(text));
    assert(failed.drop_last() =~= before);
    assert(failed.last() == FetchView::Failed(text));
    assert(run(ReaderState::Running, failed).messages =~= run(
        ReaderState::Running,
        before,
    ).messages);
    lemma_run_concat(ReaderState::Running, failed, after);
    lemma_terminated_is_silent(failure_class(text), after);
    assert(run(ReaderState::Running, failed).messages + Seq::<MessageView>::empty() =~= run(
        ReaderState::Running,
        failed,
    ).messages);
}

/// The order of one device is kept: a running reader that gets its events in
/// two reads sends what it would have sent had they come in one.
pub proof fn lemma_split_batch(first: Seq<RawEvent>, second: Seq<RawEvent>)
    ensures
        run(ReaderState::Running, seq![FetchView::Batch(first), FetchView::Batch(second)])
            == step(ReaderState::Running, FetchView::Batch(first + second)),
{
    let both = seq![FetchView::Batch(first), FetchView::Batch(second)];
    assert(both.drop_last() =~= seq![FetchView::Batch(first)]);
    assert(both.drop_last().drop_last() =~= Seq::<FetchView>::empty());
    assert(run(ReaderState::Running, both.drop_last().drop_last()).messages =~= Seq::empty());
    assert(run(ReaderState::Running, both.drop_last()).messages =~= messages_of(first));
    crate::event::lemma_messages_of_concat(first, second);
}

} // verus!

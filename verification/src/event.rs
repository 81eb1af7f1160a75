//! Raw input events, the key transitions decoded from them, and the messages
//! that reach the consumer.

use vstd::prelude::*;

verus! {

/// The type field of a raw event that reports a key transition.
pub const EV_KEY: u16 = 0x01;

/// One record as a device delivers it: the type, code and value fields.
#[derive(Clone, Copy, Debug, PartialEq, Eq, Structural)]
pub struct RawEvent {
    pub event_type: u16,
    pub code: u16,
    pub value: i32,
}

/// What happened to a key.
#[derive(Clone, Copy, Debug, PartialEq, Eq, Structural)]
pub enum Transition {
    /// The key went up (value 0).
    Released,
    /// The key went down (value 1).
    Pressed,
    /// The key is held and repeats (value 2).
    Repeated,
    /// A value that the input subsystem gives no meaning to.
    Other(i32),
}

/// A single key transition: which key, and what happened to it.
#[derive(Clone, Copy, Debug, PartialEq, Eq, Structural)]
pub struct SemanticKeyEvent {
    pub key: u16,
    pub transition: Transition,
}

/// The unit that the consumer receives: the key transition together with the
/// text that is shown for it.
#[derive(Clone, Debug, PartialEq, Eq)]
pub struct ChannelMessage {
    pub event: SemanticKeyEvent,
    pub text: String,
}

/// A [`ChannelMessage`] as a mathematical value.
pub struct MessageView {
    pub event: SemanticKeyEvent,
    pub text: Seq<char>,
}

impl View for ChannelMessage {
    type V = MessageView;

    open spec fn view(&self) -> MessageView {
        MessageView { event: self.event, text: self.text@ }
    }
}

/// The views of a sequence of messages, in the same order.
pub open spec fn message_views(messages: Seq<ChannelMessage>) -> Seq<MessageView> {
    messages.map_values(|m: ChannelMessage| m@)
}

/// The text that `evdev` shows for the kind of an event with the given type
/// and code, such as `Key(KEY_A)`.
pub uninterp spec fn kind_debug_text(event_type: u16, code: u16) -> Seq<char>;

/// Whether a raw event reports a key transition.
pub open spec fn is_key_class(ev: RawEvent) -> bool {
    ev.event_type == EV_KEY
}

/// The key transition that a raw event stands for, if it is key-class.
pub open spec fn semantic_of(ev: RawEvent) -> Option<SemanticKeyEvent> {
    if is_key_class(ev) {
        Some(SemanticKeyEvent { key: ev.code, transition: Transition::of_value(ev.value) })
    } else {
        None
    }
}

/// The message that a key transition is rendered to.
pub open spec fn rendered(event: SemanticKeyEvent) -> MessageView {
    MessageView { event, text: kind_debug_text(EV_KEY, event.key) }
}

/// The message that a raw event yields: one for a key-class event, none for
/// any other.
pub open spec fn message_of(ev: RawEvent) -> Option<MessageView> {
    match semantic_of(ev) {
        Some(event) => Some(rendered(event)),
        None => None,
    }
}

/// The messages that a batch of raw events yields, in the order of the batch.
pub open spec fn messages_of(events: Seq<RawEvent>) -> Seq<MessageView> {
    events.filter_map(|ev: RawEvent| message_of(ev))
}

impl Transition {
    /// The transition that a raw value denotes.
    pub open spec fn of_value(value: i32) -> Transition {
        if value == 0 {
            Transition::Released
        } else if value == 1 {
            Transition::Pressed
        } else if value == 2 {
            Transition::Repeated
        } else {
            Transition::Other(value)
        }
    }

    /// The raw value that denotes a transition.
    pub open spec fn raw_value(self) -> i32 {
        match self {
            Transition::Released => 0,
            Transition::Pressed => 1,
            Transition::Repeated => 2,
            Transition::Other(value) => value,
        }
    }

    /// `Other` holds none of the three values that have a variant of their own.
    pub open spec fn wf(self) -> bool {
        self matches Transition::Other(value) ==> value != 0 && value != 1 && value != 2
    }

    /// Reads a transition from the value field of a key-class event.
    pub fn from_value(value: i32) -> (t: Transition)
        ensures
            t == Transition::of_value(value),
            t.wf(),
    {
        if value == 0 {
            Transition::Released
        } else if value == 1 {
            Transition::Pressed
        } else if value == 2 {
            Transition::Repeated
        } else {
            Transition::Other(value)
        }
    }

    /// The value field that this transition came from.
    pub fn value(&self) -> (value: i32)
        ensures
            value == self.raw_value(),
    {
        match self {
            Transition::Released => 0,
            Transition::Pressed => 1,
            Transition::Repeated => 2,
            Transition::Other(value) => *value,
        }
    }
}

/// Reading a transition from a value and taking its value again gives the
/// value back; the other way round this holds of every well-formed transition.
pub proof fn lemma_transition_round_trip(value: i32, t: Transition)
    ensures
        Transition::of_value(value).raw_value() == value,
        Transition::of_value(value).wf(),
        t.wf() ==> Transition::of_value(t.raw_value()) == t,
{
}

impl RawEvent {
    pub fn new(event_type: u16, code: u16, value: i32) -> (ev: RawEvent)
        ensures
            ev == (RawEvent { event_type, code, value }),
    {
        RawEvent { event_type, code, value }
    }
}

impl ChannelMessage {
    /// A message for `event` that is shown as `text`.
    pub fn new(event: SemanticKeyEvent, text: String) -> (m: ChannelMessage)
        ensures
            m@ == (MessageView { event, text: text@ }),
    {
        ChannelMessage { event, text }
    }
}

/// Formats what `evdev::InputEvent::kind` returns for an event of the given
/// type and code with the `Debug` impl of `evdev::InputEventKind`. The text
/// depends on the two arguments alone; the contract gives it its name and
/// claims nothing of what it holds.
#[verifier::external_body]
fn kind_text(event_type: u16, code: u16) -> (text: String)
    ensures
        text@ == kind_debug_text(event_type, code),
{
    let event = evdev::InputEvent::new(evdev::EventType(event_type), code, 0);
    format!("{:?}", event.kind())
}

/// Translates a raw event into a key transition, or discards it if it is not
/// key-class.
pub fn classify(ev: &RawEvent) -> (r: Option<SemanticKeyEvent>)
    ensures
        r == semantic_of(*ev),
        r.is_some() == is_key_class(*ev),
{
    if ev.event_type == EV_KEY {
        Some(SemanticKeyEvent { key: ev.code, transition: Transition::from_value(ev.value) })
    } else {
        None
    }
}

/// Renders a key transition as the message that the consumer receives.
pub fn render(event: SemanticKeyEvent) -> (m: ChannelMessage)
    ensures
        m@ == rendered(event),
{
    ChannelMessage::new(event, kind_text(EV_KEY, event.key))
}

/// The decode step: a key-class event yields exactly one message, any other
/// event yields none.
pub fn decode(ev: &RawEvent) -> (r: Option<ChannelMessage>)
    ensures
        r.is_some() == is_key_class(*ev),
        match r {
            Some(m) => message_of(*ev) == Some(m@),
            None => message_of(*ev).is_none(),
        },
{
    match classify(ev) {
        Some(event) => Some(render(event)),
        None => None,
    }
}

/// Decodes a batch: the messages of its key-class events, in the order in
/// which the device delivered them.
pub fn decode_batch(events: &[RawEvent]) -> (out: Vec<ChannelMessage>)
    ensures
        message_views(out@) == messages_of(events@),
{
    let mut out: Vec<ChannelMessage> = Vec::new();
    let mut i: usize = 0;
    assert(events@.take(0) =~= Seq::<RawEvent>::empty());
    while i < events.len()
        invariant
            i <= events.len(),
            message_views(out@) == messages_of(events@.take(i as int)),
        decreases events.len() - i,
    {
        proof {
            events@.lemma_filter_map_take_succ(|ev: RawEvent| message_of(ev), i as int);
        }
        let ghost before = out@;
        match decode(&events[i]) {
            Some(m) => {
                out.push(m);
                assert(message_views(out@) =~= message_views(before) + seq![m@]);
            },
            None => {},
        }
        i += 1;
    }
    assert(events@.take(events.len() as int) =~= events@);
    out
}

/// Decoding keeps the order of arrival: the messages of two batches read one
/// after the other are those of the first followed by those of the second.
pub proof fn lemma_messages_of_concat(first: Seq<RawEvent>, second: Seq<RawEvent>)
    ensures
        messages_of(first + second) == messages_of(first) + messages_of(second),
    decreases second.len(),
{
    let f = |ev: RawEvent| message_of(ev);
    if second.len() == 0 {
        assert(first + second =~= first);
        assert(messages_of(first) + messages_of(second) =~= messages_of(first));
    } else {
        lemma_messages_of_concat(first, second.drop_last());
        assert((first + second).drop_last() =~= first + second.drop_last());
        assert((first + second).last() == second.last());
        match f(second.last()) {
            Some(m) => {
                assert(messages_of(first + second) =~= messages_of(first) + (messages_of(
                    second.drop_last(),
                ) + seq![m]));
            },
            None => {},
        }
    }
}

/// A batch never yields more messages than it holds events, and it yields as
/// many as it holds events when all of them are key-class.
pub proof fn lemma_messages_of_len(events: Seq<RawEvent>)
    ensures
        messages_of(events).len() <= events.len(),
        (forall|i: int| 0 <= i < events.len() ==> is_key_class(#[trigger] events[i]))
            ==> messages_of(events).len() == events.len(),
        (forall|i: int| 0 <= i < events.len() ==> !is_key_class(#[trigger] events[i]))
            ==> messages_of(events).len() == 0,
    decreases events.len(),
{
    if events.len() > 0 {
        lemma_messages_of_len(events.drop_last());
    }
}

} // verus!

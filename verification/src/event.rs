//! Domain events carried by the hub.

use vstd::prelude::*;

verus! {

/// One domain occurrence, as handed to `Hub::publish`.
///
/// Timestamps are seconds since the Unix epoch, supplied by the caller;
/// the hub never reads a clock itself. A paste's `reference_id` is the
/// lookup identifier assigned by the persistence collaborator; the paste
/// content itself is never carried through the hub.
pub enum Event {
    Joined { nickname: String, timestamp: i64 },
    ChatMessage { from: String, body: String, timestamp: i64 },
    PasteCreated { author: String, title: String, reference_id: u64, timestamp: i64 },
}

/// The mathematical model of an [`Event`]: the same shape with strings
/// seen as character sequences.
#[verifier::ext_equal]
pub enum EventView {
    Joined { nickname: Seq<char>, timestamp: i64 },
    ChatMessage { from: Seq<char>, body: Seq<char>, timestamp: i64 },
    PasteCreated { author: Seq<char>, title: Seq<char>, reference_id: u64, timestamp: i64 },
}

impl View for Event {
    type V = EventView;

    open spec fn view(&self) -> EventView {
        match self {
            Event::Joined { nickname, timestamp } => EventView::Joined {
                nickname: nickname@,
                timestamp: *timestamp,
            },
            Event::ChatMessage { from, body, timestamp } => EventView::ChatMessage {
                from: from@,
                body: body@,
                timestamp: *timestamp,
            },
            Event::PasteCreated { author, title, reference_id, timestamp } => EventView::PasteCreated {
                author: author@,
                title: title@,
                reference_id: *reference_id,
                timestamp: *timestamp,
            },
        }
    }
}

/// The model of a sequence of events.
pub open spec fn events_view(s: Seq<Event>) -> Seq<EventView> {
    s.map_values(|e: Event| e@)
}

impl Event {
    /// An independent copy of the event, equal in the model.
    pub fn dup(&self) -> (e: Event)
        ensures
            e@ == self@,
    {
        let e = match self {
            Event::Joined { nickname, timestamp } => Event::Joined {
                nickname: nickname.clone(),
                timestamp: *timestamp,
            },
            Event::ChatMessage { from, body, timestamp } => Event::ChatMessage {
                from: from.clone(),
                body: body.clone(),
                timestamp: *timestamp,
            },
            Event::PasteCreated { author, title, reference_id, timestamp } => Event::PasteCreated {
                author: author.clone(),
                title: title.clone(),
                reference_id: *reference_id,
                timestamp: *timestamp,
            },
        };
        proof {
            assert(e@ =~= self@);
        }
        e
    }
}

} // verus!

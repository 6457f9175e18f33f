//! The fault actions that the generator decides on.

use vstd::prelude::*;
use crate::message::{Message, MessageView, NID};

verus! {

/// One decided fault action.
#[derive(Debug, PartialEq, Eq)]
pub enum FuzzyEvent {
    /// Deliver the message after this many milliseconds (0: at once).
    Delay(u64, Message),
    /// The message is lost.
    Lost,
    /// Deliver the message once after each of these waits.
    Duplicate(Vec<u64>, Message),
    /// Deliver at once a message that tells its receiver to crash.
    Crash(Message),
    /// Deliver, after this many milliseconds, a message that tells its
    /// receiver to come back.
    Restart(u64, Message),
    /// Cut the first group of nodes off from the second.
    PartitionStart(Vec<NID>, Vec<NID>),
    /// After this many milliseconds, reconnect the two groups.
    PartitionRecovery(u64, Vec<NID>, Vec<NID>),
}

/// What a [`FuzzyEvent`] is, mathematically.
pub enum FuzzyEventView {
    Delay(u64, MessageView),
    Lost,
    Duplicate(Seq<u64>, MessageView),
    Crash(MessageView),
    Restart(u64, MessageView),
    PartitionStart(Seq<NID>, Seq<NID>),
    PartitionRecovery(u64, Seq<NID>, Seq<NID>),
}

impl View for FuzzyEvent {
    type V = FuzzyEventView;

    open spec fn view(&self) -> FuzzyEventView {
        match *self {
            FuzzyEvent::Delay(ms, m) => FuzzyEventView::Delay(ms, m@),
            FuzzyEvent::Lost => FuzzyEventView::Lost,
            FuzzyEvent::Duplicate(waits, m) => FuzzyEventView::Duplicate(waits@, m@),
            FuzzyEvent::Crash(m) => FuzzyEventView::Crash(m@),
            FuzzyEvent::Restart(ms, m) => FuzzyEventView::Restart(ms, m@),
            FuzzyEvent::PartitionStart(a, b) => FuzzyEventView::PartitionStart(a@, b@),
            FuzzyEvent::PartitionRecovery(ms, a, b) => FuzzyEventView::PartitionRecovery(
                ms,
                a@,
                b@,
            ),
        }
    }
}

/// The events of a list, each by its view.
pub open spec fn event_views(events: Seq<FuzzyEvent>) -> Seq<FuzzyEventView> {
    events.map_values(|e: FuzzyEvent| e@)
}

/// Appending an event to a list appends its view to the list's views.
pub proof fn lemma_event_views_push(events: Seq<FuzzyEvent>, e: FuzzyEvent)
    ensures
        event_views(events.push(e)) == event_views(events).push(e@),
{
    assert(event_views(events.push(e)) =~= event_views(events).push(e@));
}

impl Clone for FuzzyEvent {
    fn clone(&self) -> (e: FuzzyEvent)
        ensures
            e@ == self@,
    {
        match self {
            FuzzyEvent::Delay(ms, m) => FuzzyEvent::Delay(*ms, m.clone()),
            FuzzyEvent::Lost => FuzzyEvent::Lost,
            FuzzyEvent::Duplicate(waits, m) => FuzzyEvent::Duplicate(waits.clone(), m.clone()),
            FuzzyEvent::Crash(m) => FuzzyEvent::Crash(m.clone()),
            FuzzyEvent::Restart(ms, m) => FuzzyEvent::Restart(*ms, m.clone()),
            FuzzyEvent::PartitionStart(a, b) => FuzzyEvent::PartitionStart(a.clone(), b.clone()),
            FuzzyEvent::PartitionRecovery(ms, a, b) => FuzzyEvent::PartitionRecovery(
                *ms,
                a.clone(),
                b.clone(),
            ),
        }
    }
}

} // verus!

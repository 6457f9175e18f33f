//! The interface between the driver and whatever decides the events.

use vstd::prelude::*;
use crate::fuzzy_command::{FuzzyCommand, FuzzyCommandView};
use crate::fuzzy_event::{event_views, FuzzyEvent, FuzzyEventView};

verus! {

/// A source of fault events: for each command, the events decided for it,
/// in the order in which they are to be recorded.
pub trait FuzzyGenerator {
    /// Whether `events` is a list that this generator may decide for the
    /// command `cmd`. A generator that does not say so itself allows
    /// every list, and so holds itself to nothing.
    open spec fn decides(&self, cmd: FuzzyCommandView, events: Seq<FuzzyEventView>) -> bool {
        true
    }

    /// The events decided for `cmd`.
    fn gen(&self, cmd: FuzzyCommand) -> (events: Vec<FuzzyEvent>)
        ensures
            self.decides(cmd@, event_views(events@)),
    ;
}

} // verus!

//! Recording the events of a session and comparing them with a sequence
//! that was announced beforehand.
//!
//! A session announces the sequence of events that marks a known fault.
//! Each event that it then reports is recorded, and the report says
//! whether the events recorded so far are the announced sequence.

use vstd::prelude::*;
use crate::concurrent::{
    held_sequences,
    sequences_append,
    sequences_insert,
    sequences_new,
    sequences_read,
    sequences_remove,
};
use crate::texts::{same_texts, texts};

verus! {

/// The announced and the recorded sequences, by session.
pub struct SequenceRegistry {
    events: scc::HashMap<String, Vec<String>>,
    injected: scc::HashMap<String, Vec<String>>,
}

/// What a [`SequenceRegistry`] is, mathematically.
pub struct SequenceRegistryView {
    /// The events recorded so far, by session.
    pub events: Map<Seq<char>, Seq<Seq<char>>>,
    /// The announced sequence, by session.
    pub injected: Map<Seq<char>, Seq<Seq<char>>>,
}

impl View for SequenceRegistry {
    type V = SequenceRegistryView;

    closed spec fn view(&self) -> SequenceRegistryView {
        SequenceRegistryView {
            events: held_sequences(self.events),
            injected: held_sequences(self.injected),
        }
    }
}

/// Whether the session `s`, having recorded `e` as well, has recorded
/// exactly the sequence that it announced.
pub open spec fn reproduces(r: SequenceRegistryView, s: Seq<char>, e: Seq<char>) -> bool {
    &&& r.events.contains_key(s)
    &&& r.injected.contains_key(s)
    &&& r.events[s].push(e) == r.injected[s]
}

impl SequenceRegistry {
    /// A registry without sessions.
    pub fn new() -> (registry: SequenceRegistry)
        ensures
            registry@ == (SequenceRegistryView { events: Map::empty(), injected: Map::empty() }),
    {
        SequenceRegistry { events: sequences_new(), injected: sequences_new() }
    }
}

/// Opens the session `s` with the announced sequence `v` and nothing
/// recorded. Where the session has announced or recorded before, that
/// stays.
pub fn event_sequence_setup(registry: &mut SequenceRegistry, s: &str, v: Vec<String>)
    ensures
        final(registry)@.injected == if old(registry)@.injected.contains_key(s@) {
            old(registry)@.injected
        } else {
            old(registry)@.injected.insert(s@, texts(v@))
        },
        final(registry)@.events == if old(registry)@.events.contains_key(s@) {
            old(registry)@.events
        } else {
            old(registry)@.events.insert(s@, Seq::empty())
        },
{
    let empty: Vec<String> = Vec::new();
    proof {
        assert(texts(empty@) =~= Seq::<Seq<char>>::empty());
    }
    sequences_insert(&mut registry.injected, s.to_owned(), v);
    sequences_insert(&mut registry.events, s.to_owned(), empty);
}

/// Closes the session `s`.
pub fn event_sequence_unset(registry: &mut SequenceRegistry, s: &str)
    ensures
        final(registry)@ == (SequenceRegistryView {
            events: old(registry)@.events.remove(s@),
            injected: old(registry)@.injected.remove(s@),
        }),
{
    sequences_remove(&mut registry.events, s);
    sequences_remove(&mut registry.injected, s);
}

/// Takes an event that the session `s` reports, as text. Where `s` is
/// open, the event is put behind its recorded events, and the answer
/// says whether these are now the announced sequence.
pub fn event_sequence_add(registry: &mut SequenceRegistry, s: &str, e: String) -> (matched: bool)
    ensures
        matched == reproduces(old(registry)@, s@, e@),
        final(registry)@ == (SequenceRegistryView {
            events: if old(registry)@.events.contains_key(s@) {
                old(registry)@.events.insert(s@, old(registry)@.events[s@].push(e@))
            } else {
                old(registry)@.events
            },
            injected: old(registry)@.injected,
        }),
{
    if !sequences_append(&mut registry.events, s, e) {
        return false;
    }
    let sequence = match sequences_read(&registry.events, s) {
        Some(sequence) => sequence,
        None => {
            return false;
        },
    };
    match sequences_read(&registry.injected, s) {
        Some(announced) => same_texts(&announced, &sequence),
        None => false,
    }
}

} // verus!

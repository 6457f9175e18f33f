//! Sessions of nodes under test.
//!
//! A node under test opens a session by name to have its outgoing
//! messages fuzzed, to have its events recorded, or both. The sessions
//! are kept in a registry that the caller owns and hands to every
//! function.

use vstd::prelude::*;
use crate::fuzzy_command::{FuzzyCommand, FuzzyCommandView};
use crate::message::Message;
use crate::concurrent::{
    held_names,
    held_sequences,
    names_contains,
    names_insert,
    names_new,
    names_remove,
    sequences_append,
    sequences_insert,
    sequences_new,
    sequences_remove,
};

verus! {

/// The sessions that are open.
pub struct FuzzyRegistry {
    fuzzy: scc::HashSet<String>,
    handlers: scc::HashSet<String>,
    events: scc::HashMap<String, Vec<String>>,
}

/// What a [`FuzzyRegistry`] is, mathematically.
pub struct FuzzyRegistryView {
    /// The sessions whose messages are fuzzed.
    pub fuzzy: Set<Seq<char>>,
    /// The sessions whose events are handed to a handler.
    pub handlers: Set<Seq<char>>,
    /// The events recorded so far, by session.
    pub events: Map<Seq<char>, Seq<Seq<char>>>,
}

impl View for FuzzyRegistry {
    type V = FuzzyRegistryView;

    closed spec fn view(&self) -> FuzzyRegistryView {
        FuzzyRegistryView {
            fuzzy: held_names(self.fuzzy),
            handlers: held_names(self.handlers),
            events: held_sequences(self.events),
        }
    }
}

/// What became of an event that a session reported.
#[derive(Clone, Copy, Debug, PartialEq, Eq, Structural)]
pub struct Recorded {
    /// Whether the session has a handler, which is to be told of the
    /// event.
    pub notify: bool,
    /// Whether the event was put behind the session's recorded events.
    pub stored: bool,
}

impl FuzzyRegistry {
    /// A registry without sessions.
    pub fn new() -> (registry: FuzzyRegistry)
        ensures
            registry@ == (FuzzyRegistryView {
                fuzzy: Set::empty(),
                handlers: Set::empty(),
                events: Map::empty(),
            }),
    {
        FuzzyRegistry { fuzzy: names_new(), handlers: names_new(), events: sequences_new() }
    }
}

/// Opens the session `s` for recording, with a handler. A session that
/// records already keeps what it has recorded.
pub fn event_sequence_setup(registry: &mut FuzzyRegistry, s: &str)
    ensures
        final(registry)@ == (FuzzyRegistryView {
            handlers: old(registry)@.handlers.insert(s@),
            events: if old(registry)@.events.contains_key(s@) {
                old(registry)@.events
            } else {
                old(registry)@.events.insert(s@, Seq::empty())
            },
            ..old(registry)@
        }),
{
    let empty: Vec<String> = Vec::new();
    proof {
        assert(crate::texts::texts(empty@) =~= Seq::<Seq<char>>::empty());
    }
    sequences_insert(&mut registry.events, s.to_owned(), empty);
    let _ = names_insert(&mut registry.handlers, s.to_owned());
}

/// Forgets what the session `s` has recorded.
pub fn event_sequence_unset(registry: &mut FuzzyRegistry, s: &str)
    ensures
        final(registry)@ == (FuzzyRegistryView {
            events: old(registry)@.events.remove(s@),
            ..old(registry)@
        }),
{
    sequences_remove(&mut registry.events, s);
}

/// Takes an event that the session `s` reports, as text: it is put
/// behind the events recorded for `s`, if `s` records, and the answer
/// says whether a handler is to be told.
pub fn event_sequence_add(registry: &mut FuzzyRegistry, s: &str, e: String) -> (recorded: Recorded)
    ensures
        recorded.notify == old(registry)@.handlers.contains(s@),
        recorded.stored == old(registry)@.events.contains_key(s@),
        final(registry)@ == (FuzzyRegistryView {
            events: if recorded.stored {
                old(registry)@.events.insert(s@, old(registry)@.events[s@].push(e@))
            } else {
                old(registry)@.events
            },
            ..old(registry)@
        }),
{
    let notify = names_contains(&registry.handlers, s);
    let stored = sequences_append(&mut registry.events, s, e);
    Recorded { notify, stored }
}

/// Opens the session `name` for fuzzing; `true` where it was not open.
pub fn fuzzy_testing_setup(registry: &mut FuzzyRegistry, name: &str) -> (opened: bool)
    ensures
        opened == !old(registry)@.fuzzy.contains(name@),
        final(registry)@ == (FuzzyRegistryView {
            fuzzy: old(registry)@.fuzzy.insert(name@),
            ..old(registry)@
        }),
{
    names_insert(&mut registry.fuzzy, name.to_owned())
}

/// Whether the session `name` is open for fuzzing.
pub fn fuzzy_testing_enable(registry: &FuzzyRegistry, name: &str) -> (enabled: bool)
    ensures
        enabled == registry@.fuzzy.contains(name@),
{
    names_contains(&registry.fuzzy, name)
}

/// Closes the session `name` for fuzzing and for recording.
pub fn fuzzy_testing_unset(registry: &mut FuzzyRegistry, name: &str)
    ensures
        final(registry)@ == (FuzzyRegistryView {
            fuzzy: old(registry)@.fuzzy.remove(name@),
            handlers: old(registry)@.handlers.remove(name@),
            events: old(registry)@.events.remove(name@),
        }),
{
    names_remove(&mut registry.fuzzy, name);
    sequences_remove(&mut registry.events, name);
    names_remove(&mut registry.handlers, name);
}

/// The command by which the session `name` reports `message` to the
/// fault injector, if the session is open for fuzzing.
pub fn fuzzy_testing_message(registry: &FuzzyRegistry, name: &str, message: Message) -> (report:
    Option<FuzzyCommand>)
    ensures
        report.is_some() == registry@.fuzzy.contains(name@),
        report matches Some(c) ==> c@ == FuzzyCommandView::MessageReq(message@),
{
    if names_contains(&registry.fuzzy, name) {
        Some(FuzzyCommand::MessageReq(message))
    } else {
        None
    }
}

} // verus!

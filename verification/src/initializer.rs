//! What a test sends to its nodes before fuzzing begins.

use vstd::prelude::*;
use crate::message::Message;

verus! {

/// A source of startup messages.
pub trait Initializer {
    /// The startup messages, in the order in which they are sent.
    fn message(&self) -> Vec<Message>;
}

/// Whether the driver is to hold commands back until every node has
/// reported: it is where there is a startup message.
pub fn awaits_nodes(startup: &Vec<Message>) -> (enabled: bool)
    ensures
        enabled == (startup@.len() > 0),
{
    startup.len() > 0
}

/// The initializer that sends nothing.
#[derive(Clone, Copy, Debug)]
pub struct InitializerPhantom {}

impl Default for InitializerPhantom {
    fn default() -> InitializerPhantom {
        InitializerPhantom {  }
    }
}

impl Initializer for InitializerPhantom {
    fn message(&self) -> (messages: Vec<Message>)
        ensures
            messages@.len() == 0,
    {
        Vec::new()
    }
}

} // verus!

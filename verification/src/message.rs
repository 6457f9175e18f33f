//! Protocol messages as the fault injector sees them: an opaque text
//! payload travelling from one node to another.

use vstd::prelude::*;

verus! {

/// Identifier of a node under test.
pub type NID = u64;

/// A protocol message: payload, sender and receiver.
#[derive(Debug, PartialEq, Eq, Hash)]
pub struct Message {
    pub payload: String,
    pub source: NID,
    pub dest: NID,
}

/// What a [`Message`] is, mathematically.
pub struct MessageView {
    pub payload: Seq<char>,
    pub source: NID,
    pub dest: NID,
}

impl View for Message {
    type V = MessageView;

    open spec fn view(&self) -> MessageView {
        MessageView { payload: self.payload@, source: self.source, dest: self.dest }
    }
}

impl Message {
    /// A message with the given payload, from `source` to `dest`.
    pub fn new(payload: String, source: NID, dest: NID) -> (m: Message)
        ensures
            m@ == (MessageView { payload: payload@, source, dest }),
    {
        Message { payload, source, dest }
    }

    /// The node that sent the message.
    pub fn source(&self) -> (id: NID)
        ensures
            id == self@.source,
    {
        self.source
    }

    /// The node the message is addressed to.
    pub fn dest(&self) -> (id: NID)
        ensures
            id == self@.dest,
    {
        self.dest
    }

    /// The payload text.
    pub fn payload(&self) -> (p: &String)
        ensures
            p@ == self@.payload,
    {
        &self.payload
    }
}

impl Clone for Message {
    fn clone(&self) -> (m: Message)
        ensures
            m@ == self@,
    {
        Message { payload: self.payload.clone(), source: self.source, dest: self.dest }
    }
}

} // verus!

//! The commands that nodes under test send to the fault injector.

use vstd::prelude::*;
use crate::message::{Message, MessageView};

verus! {

/// One inbound unit of work.
#[derive(Debug, PartialEq, Eq, Hash)]
pub enum FuzzyCommand {
    /// The sender of the message has started and can be reached.
    Initialize(Message),
    /// A protocol message that awaits a fault decision.
    MessageReq(Message),
}

/// The kind of a [`FuzzyCommand`].
#[derive(Clone, Copy, Debug, PartialEq, Eq, Structural)]
pub enum FuzzyCmdType {
    Initialize,
    MessageReq,
}

/// What a [`FuzzyCommand`] is, mathematically.
pub enum FuzzyCommandView {
    Initialize(MessageView),
    MessageReq(MessageView),
}

impl View for FuzzyCommand {
    type V = FuzzyCommandView;

    open spec fn view(&self) -> FuzzyCommandView {
        match *self {
            FuzzyCommand::Initialize(m) => FuzzyCommandView::Initialize(m@),
            FuzzyCommand::MessageReq(m) => FuzzyCommandView::MessageReq(m@),
        }
    }
}

impl FuzzyCommand {
    /// The command of kind `cmd_type` that carries `message`.
    pub fn of_type(cmd_type: FuzzyCmdType, message: Message) -> (c: FuzzyCommand)
        ensures
            c@ == match cmd_type {
                FuzzyCmdType::Initialize => FuzzyCommandView::Initialize(message@),
                FuzzyCmdType::MessageReq => FuzzyCommandView::MessageReq(message@),
            },
    {
        match cmd_type {
            FuzzyCmdType::Initialize => FuzzyCommand::Initialize(message),
            FuzzyCmdType::MessageReq => FuzzyCommand::MessageReq(message),
        }
    }

    /// The kind of this command.
    pub fn command_type(&self) -> (t: FuzzyCmdType)
        ensures
            t == FuzzyCmdType::Initialize <==> self@ is Initialize,
            t == FuzzyCmdType::MessageReq <==> self@ is MessageReq,
    {
        match self {
            FuzzyCommand::Initialize(_) => FuzzyCmdType::Initialize,
            FuzzyCommand::MessageReq(_) => FuzzyCmdType::MessageReq,
        }
    }

    /// The message that the command carries.
    pub fn message(&self) -> (m: &Message)
        ensures
            self@ == FuzzyCommandView::Initialize(m@) || self@ == FuzzyCommandView::MessageReq(m@),
    {
        match self {
            FuzzyCommand::Initialize(m) => m,
            FuzzyCommand::MessageReq(m) => m,
        }
    }
}

impl Clone for FuzzyCommand {
    fn clone(&self) -> (c: FuzzyCommand)
        ensures
            c@ == self@,
    {
        match self {
            FuzzyCommand::Initialize(m) => FuzzyCommand::Initialize(m.clone()),
            FuzzyCommand::MessageReq(m) => FuzzyCommand::MessageReq(m.clone()),
        }
    }
}

} // verus!

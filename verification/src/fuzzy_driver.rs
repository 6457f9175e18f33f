//! The decisions of the driver.
//!
//! The driver numbers every generated event and every delivery from one
//! sequence, turns an event into the steps of its execution, and lets a
//! message through only where its sender is not cut off from its
//! receiver. Waiting, logging and sending are left to the caller: each
//! function here takes the state and what happened, and says what the
//! state becomes and what is to be done.

use vstd::prelude::*;
use crate::concurrent::{held_nodes, nodes_insert, nodes_is_empty, nodes_new, nodes_remove};
use crate::entropy::remaining;
use crate::event_gen::{outcome, EventGen};
use crate::fuzzy_command::{FuzzyCommand, FuzzyCommandView};
use crate::fuzzy_event::{event_views, lemma_event_views_push, FuzzyEvent, FuzzyEventView};
use crate::fuzzy_generator::FuzzyGenerator;
use crate::message::{Message, MessageView, NID};
use crate::partition_state::{cross_pairs, PartitionState};

verus! {

/// A generated event under its sequence id: one record of the action log.
#[derive(Debug)]
pub struct Action {
    pub id: u64,
    pub event: FuzzyEvent,
}

/// What an [`Action`] is, mathematically.
pub struct ActionView {
    pub id: u64,
    pub event: FuzzyEventView,
}

impl View for Action {
    type V = ActionView;

    open spec fn view(&self) -> ActionView {
        ActionView { id: self.id, event: self.event@ }
    }
}

/// A message that is let through: one record of the delivery log, and
/// the message to hand to the transport.
#[derive(Debug)]
pub struct Delivery {
    pub id: u64,
    pub action_id: u64,
    pub message: Message,
}

/// What a [`Delivery`] is, mathematically.
pub struct DeliveryView {
    pub id: u64,
    pub action_id: u64,
    pub message: MessageView,
}

impl View for Delivery {
    type V = DeliveryView;

    open spec fn view(&self) -> DeliveryView {
        DeliveryView { id: self.id, action_id: self.action_id, message: self.message@ }
    }
}

/// One step of the execution of an event.
#[derive(Debug)]
pub enum Step {
    /// Wait this many milliseconds.
    Wait(u64),
    /// Attempt to deliver the message.
    Deliver(Message),
    /// Cut the first group off from the second.
    Block(Vec<NID>, Vec<NID>),
    /// Reconnect the first group to the second.
    Unblock(Vec<NID>, Vec<NID>),
}

/// What a [`Step`] is, mathematically.
pub enum StepView {
    Wait(u64),
    Deliver(MessageView),
    Block(Seq<NID>, Seq<NID>),
    Unblock(Seq<NID>, Seq<NID>),
}

impl View for Step {
    type V = StepView;

    open spec fn view(&self) -> StepView {
        match *self {
            Step::Wait(ms) => StepView::Wait(ms),
            Step::Deliver(m) => StepView::Deliver(m@),
            Step::Block(a, b) => StepView::Block(a@, b@),
            Step::Unblock(a, b) => StepView::Unblock(a@, b@),
        }
    }
}

/// What the caller is to do after a step.
#[derive(Debug)]
pub enum Effect {
    /// Suspend for this many milliseconds.
    Sleep(u64),
    /// Record the delivery, then send its message.
    Send(Delivery),
    /// Nothing: the message was dropped, its sender being cut off from
    /// its receiver.
    Dropped,
    /// Nothing: the step was carried out on the state.
    Done,
}

/// What an [`Effect`] is, mathematically.
pub enum EffectView {
    Sleep(u64),
    Send(DeliveryView),
    Dropped,
    Done,
}

impl View for Effect {
    type V = EffectView;

    open spec fn view(&self) -> EffectView {
        match *self {
            Effect::Sleep(ms) => EffectView::Sleep(ms),
            Effect::Send(d) => EffectView::Send(d@),
            Effect::Dropped => EffectView::Dropped,
            Effect::Done => EffectView::Done,
        }
    }
}

/// The steps of a list, each by its view.
pub open spec fn step_views(steps: Seq<Step>) -> Seq<StepView> {
    steps.map_values(|s: Step| s@)
}

/// The steps in which an event is executed.
pub open spec fn plan(e: FuzzyEventView) -> Seq<StepView> {
    match e {
        FuzzyEventView::Delay(ms, m) => if ms > 0 {
            seq![StepView::Wait(ms), StepView::Deliver(m)]
        } else {
            seq![StepView::Deliver(m)]
        },
        FuzzyEventView::Lost => Seq::empty(),
        FuzzyEventView::Duplicate(waits, m) => Seq::new(
            2 * waits.len(),
            |k: int|
                if k % 2 == 0 {
                    StepView::Wait(waits[k / 2])
                } else {
                    StepView::Deliver(m)
                },
        ),
        FuzzyEventView::Crash(m) => seq![StepView::Deliver(m)],
        FuzzyEventView::Restart(ms, m) => seq![StepView::Wait(ms), StepView::Deliver(m)],
        FuzzyEventView::PartitionStart(a, b) => seq![StepView::Block(a, b)],
        FuzzyEventView::PartitionRecovery(ms, a, b) => seq![
            StepView::Wait(ms),
            StepView::Unblock(a, b),
        ],
    }
}

/// The part of the driver's state that the execution of events shares:
/// the sequence and the pairs that are cut off.
pub struct FuzzyInner {
    dis_connect: PartitionState,
    sequence: u64,
}

/// What a [`FuzzyInner`] is, mathematically.
pub struct InnerView {
    /// The id that is assigned next.
    pub sequence: u64,
    /// The pairs `(a, b)` of which `a` cannot reach `b`.
    pub blocked: Set<(NID, NID)>,
}

impl View for FuzzyInner {
    type V = InnerView;

    closed spec fn view(&self) -> InnerView {
        InnerView { sequence: self.sequence, blocked: self.dis_connect@ }
    }
}

/// The id that follows `id`. The sequence wraps round at the end of
/// `u64`.
pub open spec fn id_after(id: u64) -> u64 {
    if id == u64::MAX {
        0
    } else {
        (id + 1) as u64
    }
}

/// Something that is done to the shared state.
pub enum Op {
    /// An id is taken for a generated event.
    Assign,
    /// A step of the event `action_id` is carried out.
    Perform(u64, StepView),
}

/// Whether the step lets a message through in the state `s`.
pub open spec fn delivers(s: InnerView, step: StepView) -> bool {
    step matches StepView::Deliver(m) && !s.blocked.contains((m.source, m.dest))
}

/// Whether `op` takes an id from the sequence in the state `s`.
pub open spec fn takes_id(s: InnerView, op: Op) -> bool {
    match op {
        Op::Assign => true,
        Op::Perform(_, step) => delivers(s, step),
    }
}

/// The state after `op` in the state `s`.
pub open spec fn apply(s: InnerView, op: Op) -> InnerView {
    match op {
        Op::Assign => InnerView { sequence: id_after(s.sequence), blocked: s.blocked },
        Op::Perform(_, step) => match step {
            StepView::Wait(_) => s,
            StepView::Deliver(_) => if delivers(s, step) {
                InnerView { sequence: id_after(s.sequence), blocked: s.blocked }
            } else {
                s
            },
            StepView::Block(a, b) => InnerView {
                sequence: s.sequence,
                blocked: s.blocked.union(cross_pairs(a, b)),
            },
            StepView::Unblock(a, b) => InnerView {
                sequence: s.sequence,
                blocked: s.blocked.difference(cross_pairs(a, b)),
            },
        },
    }
}

/// What the caller is to do after the step `step` of the event
/// `action_id` in the state `s`.
pub open spec fn effect(s: InnerView, action_id: u64, step: StepView) -> EffectView {
    match step {
        StepView::Wait(ms) => EffectView::Sleep(ms),
        StepView::Deliver(m) => if delivers(s, step) {
            EffectView::Send(DeliveryView { id: s.sequence, action_id, message: m })
        } else {
            EffectView::Dropped
        },
        StepView::Block(_, _) => EffectView::Done,
        StepView::Unblock(_, _) => EffectView::Done,
    }
}

/// The state after the operations `ops`, one after the other, from the
/// state `s`.
pub open spec fn run(s: InnerView, ops: Seq<Op>) -> InnerView
    decreases ops.len(),
{
    if ops.len() == 0 {
        s
    } else {
        apply(run(s, ops.drop_last()), ops.last())
    }
}

/// The ids that the operations `ops` take from the state `s` on, in the
/// order in which they are taken.
pub open spec fn ids_taken(s: InnerView, ops: Seq<Op>) -> Seq<u64>
    decreases ops.len(),
{
    if ops.len() == 0 {
        Seq::empty()
    } else if takes_id(run(s, ops.drop_last()), ops.last()) {
        ids_taken(s, ops.drop_last()).push(run(s, ops.drop_last()).sequence)
    } else {
        ids_taken(s, ops.drop_last())
    }
}

/// `n` times [`Op::Assign`].
pub open spec fn assigns(n: nat) -> Seq<Op> {
    Seq::new(n, |k: int| Op::Assign)
}

/// The ids of a list of actions.
pub open spec fn action_ids(actions: Seq<Action>) -> Seq<u64> {
    actions.map_values(|a: Action| a.id)
}

/// The events of a list of actions, each by its view.
pub open spec fn action_events(actions: Seq<Action>) -> Seq<FuzzyEventView> {
    actions.map_values(|a: Action| a.event@)
}

impl FuzzyInner {
    /// A state in which every node reaches every other and no id is
    /// taken.
    pub fn new() -> (inner: FuzzyInner)
        ensures
            inner@ == (InnerView { sequence: 0, blocked: Set::empty() }),
    {
        FuzzyInner { dis_connect: PartitionState::new(), sequence: 0 }
    }

    /// The steps in which `event` is executed.
    pub fn schedule(event: &FuzzyEvent) -> (steps: Vec<Step>)
        ensures
            step_views(steps@) == plan(event@),
    {
        let mut steps: Vec<Step> = Vec::new();
        match event {
            FuzzyEvent::Delay(ms, message) => {
                if *ms > 0 {
                    steps.push(Step::Wait(*ms));
                }
                steps.push(Step::Deliver(message.clone()));
            },
            FuzzyEvent::Duplicate(waits, message) => {
                let mut i: usize = 0;
                while i < waits.len()
                    invariant
                        i <= waits.len(),
                        steps.len() == 2 * i,
                        forall|k: int|
                            0 <= k < steps.len() ==> (#[trigger] steps@[k])@ == plan(event@)[k],
                        event@ == FuzzyEventView::Duplicate(waits@, message@),
                    decreases waits.len() - i,
                {
                    steps.push(Step::Wait(waits[i]));
                    steps.push(Step::Deliver(message.clone()));
                    i += 1;
                }
            },
            FuzzyEvent::Lost => {},
            FuzzyEvent::Restart(ms, message) => {
                steps.push(Step::Wait(*ms));
                steps.push(Step::Deliver(message.clone()));
            },
            FuzzyEvent::Crash(message) => {
                steps.push(Step::Deliver(message.clone()));
            },
            FuzzyEvent::PartitionStart(first, second) => {
                steps.push(Step::Block(first.clone(), second.clone()));
            },
            FuzzyEvent::PartitionRecovery(ms, first, second) => {
                steps.push(Step::Wait(*ms));
                steps.push(Step::Unblock(first.clone(), second.clone()));
            },
        }
        proof {
            assert(step_views(steps@) =~= plan(event@));
        }
        steps
    }

    /// Takes the next id from the sequence.
    pub fn gen_id(&mut self) -> (id: u64)
        ensures
            id == old(self)@.sequence,
            final(self)@ == apply(old(self)@, Op::Assign),
    {
        let id = self.sequence;
        self.sequence = self.sequence.wrapping_add(1);
        id
    }

    /// Whether `source` can reach `dest` at present.
    pub fn can_connect(&self, source: NID, dest: NID) -> (open: bool)
        ensures
            open == !self@.blocked.contains((source, dest)),
    {
        self.dis_connect.can_connect(source, dest)
    }

    /// Cuts every node of `first` off from every other node of `second`.
    pub fn partition_start(&mut self, first: &Vec<NID>, second: &Vec<NID>)
        ensures
            final(self)@.sequence == old(self)@.sequence,
            final(self)@.blocked == old(self)@.blocked.union(cross_pairs(first@, second@)),
    {
        self.dis_connect.partition_start(first, second);
    }

    /// Lets every node of `first` reach every other node of `second`
    /// again.
    pub fn partition_end(&mut self, first: &Vec<NID>, second: &Vec<NID>)
        ensures
            final(self)@.sequence == old(self)@.sequence,
            final(self)@.blocked == old(self)@.blocked.difference(cross_pairs(first@, second@)),
    {
        self.dis_connect.partition_end(first, second);
    }

    /// Attempts the delivery of `message` for the event `action_id`. A
    /// message whose sender is cut off from its receiver is dropped, and
    /// nothing changes; any other is let through under an id of its own.
    pub fn send(&mut self, action_id: u64, message: Message) -> (sent: Option<Delivery>)
        ensures
            final(self)@ == apply(old(self)@, Op::Perform(action_id, StepView::Deliver(message@))),
            sent.is_some() == delivers(old(self)@, StepView::Deliver(message@)),
            sent matches Some(d) ==> d@ == (DeliveryView {
                id: old(self)@.sequence,
                action_id,
                message: message@,
            }),
    {
        if !self.can_connect(message.source(), message.dest()) {
            return None;
        }
        let id = self.gen_id();
        Some(Delivery { id, action_id, message })
    }

    /// Carries out one step of the event `action_id` on the state and
    /// says what is left for the caller to do.
    pub fn perform(&mut self, action_id: u64, step: Step) -> (e: Effect)
        ensures
            final(self)@ == apply(old(self)@, Op::Perform(action_id, step@)),
            e@ == effect(old(self)@, action_id, step@),
    {
        match step {
            Step::Wait(ms) => Effect::Sleep(ms),
            Step::Deliver(message) => match self.send(action_id, message) {
                Some(delivery) => Effect::Send(delivery),
                None => Effect::Dropped,
            },
            Step::Block(first, second) => {
                self.partition_start(&first, &second);
                Effect::Done
            },
            Step::Unblock(first, second) => {
                self.partition_end(&first, &second);
                Effect::Done
            },
        }
    }

    /// Gives each of the events the next id of the sequence, in order.
    pub fn assign_ids(&mut self, events: &Vec<FuzzyEvent>) -> (actions: Vec<Action>)
        ensures
            action_events(actions@) == event_views(events@),
            action_ids(actions@) == ids_taken(old(self)@, assigns(events@.len())),
            final(self)@ == run(old(self)@, assigns(events@.len())),
    {
        let ghost start = self@;
        let mut actions: Vec<Action> = Vec::new();
        let mut i: usize = 0;
        while i < events.len()
            invariant
                i <= events.len(),
                actions.len() == i,
                action_events(actions@) == event_views(events@.take(i as int)),
                action_ids(actions@) == ids_taken(start, assigns(i as nat)),
                self@ == run(start, assigns(i as nat)),
            decreases events.len() - i,
        {
            let ghost so_far = actions@;
            let id = self.gen_id();
            let action = Action { id, event: events[i].clone() };
            let ghost copied = action.event@;
            actions.push(action);
            proof {
                assert(assigns((i + 1) as nat).drop_last() =~= assigns(i as nat));
                assert(events@.take(i + 1) =~= events@.take(i as int).push(events@[i as int]));
                lemma_event_views_push(events@.take(i as int), events@[i as int]);
                assert(action_events(actions@) =~= action_events(so_far).push(copied));
                assert(action_ids(actions@) =~= action_ids(so_far).push(id));
            }
            i += 1;
        }
        proof {
            assert(events@.take(i as int) =~= events@);
        }
        actions
    }
}

/// Why the driver rejected a command.
#[derive(Clone, Copy, Debug, PartialEq, Eq, Structural)]
pub enum DriverError {
    /// The command is none that asks for a fault decision.
    UnexpectedCommand,
}

impl DriverError {
    /// The error in words.
    pub fn describe(&self) -> (text: &'static str)
        ensures
            text@ == "unexpected command: only a message request can be fuzzed"@,
    {
        "unexpected command: only a message request can be fuzzed"
    }
}

/// What the driver made of a command.
#[derive(Debug)]
pub struct Handled {
    /// The events decided for the command, each under its id, in the
    /// order in which they are to be recorded and then executed.
    pub actions: Vec<Action>,
    /// Whether the cursor served every draw of the generator.
    pub complete: bool,
}

/// How an attempt to hand a message to the transport ended.
#[derive(Clone, Copy, Debug, PartialEq, Eq, Structural)]
pub enum SendResult {
    Sent,
    NotConnected,
    Failed,
}

/// What to do after an attempt to hand a message to the transport.
#[derive(Clone, Copy, Debug, PartialEq, Eq, Structural)]
pub enum Reaction {
    /// The message is on its way.
    Finish,
    /// Connect again, then send the message once more.
    Reconnect,
    /// Report the failure of this event.
    Fail,
}

/// What to do after an attempt to send that ended in `result`, given
/// whether this delivery has reconnected before: a transport that is not
/// connected is connected again once; any other failure is final.
pub fn after_send(result: SendResult, reconnected: bool) -> (reaction: Reaction)
    ensures
        reaction == match result {
            SendResult::Sent => Reaction::Finish,
            SendResult::NotConnected => if reconnected {
                Reaction::Fail
            } else {
                Reaction::Reconnect
            },
            SendResult::Failed => Reaction::Fail,
        },
{
    match result {
        SendResult::Sent => Reaction::Finish,
        SendResult::NotConnected => if reconnected {
            Reaction::Fail
        } else {
            Reaction::Reconnect
        },
        SendResult::Failed => Reaction::Fail,
    }
}

/// The driver: the shared state of the executions, and the barrier
/// that holds commands back until every node has reported.
pub struct FuzzyDriver {
    inner: FuzzyInner,
    node_set: scc::HashSet<NID>,
    held_back: Vec<FuzzyCommand>,
    active: bool,
}

/// What a [`FuzzyDriver`] is, mathematically.
pub struct DriverView {
    pub inner: InnerView,
    /// The nodes that have not reported yet.
    pub awaited: Set<NID>,
    /// The commands held back, in the order of their arrival.
    pub held_back: Seq<FuzzyCommandView>,
    /// Whether the barrier is down. Once down it stays down.
    pub active: bool,
}

impl View for FuzzyDriver {
    type V = DriverView;

    closed spec fn view(&self) -> DriverView {
        DriverView {
            inner: self.inner@,
            awaited: held_nodes(self.node_set),
            held_back: command_views(self.held_back@),
            active: self.active,
        }
    }
}

/// The commands of a list, each by its view.
pub open spec fn command_views(commands: Seq<FuzzyCommand>) -> Seq<FuzzyCommandView> {
    commands.map_values(|c: FuzzyCommand| c@)
}

/// The nodes that are awaited after the command `c`.
pub open spec fn awaited_after(s: DriverView, c: FuzzyCommandView) -> Set<NID> {
    match c {
        FuzzyCommandView::Initialize(m) => s.awaited.remove(m.source),
        FuzzyCommandView::MessageReq(_) => s.awaited,
    }
}

/// The commands that are held back after the command `c`, were the
/// barrier to stay up.
pub open spec fn held_back_after(s: DriverView, c: FuzzyCommandView) -> Seq<FuzzyCommandView> {
    match c {
        FuzzyCommandView::Initialize(_) => s.held_back,
        FuzzyCommandView::MessageReq(_) => s.held_back.push(c),
    }
}

/// The state of the driver after the command `c` has arrived.
pub open spec fn admitted(s: DriverView, c: FuzzyCommandView) -> DriverView {
    if s.active {
        s
    } else if awaited_after(s, c) == Set::<NID>::empty() {
        DriverView {
            inner: s.inner,
            awaited: awaited_after(s, c),
            held_back: Seq::empty(),
            active: true,
        }
    } else {
        DriverView {
            inner: s.inner,
            awaited: awaited_after(s, c),
            held_back: held_back_after(s, c),
            active: false,
        }
    }
}

/// The commands that the barrier releases when the command `c` arrives:
/// `c` itself where the barrier is down; all that were held back, in the
/// order of their arrival, where `c` takes it down; none where it stays
/// up.
pub open spec fn released(s: DriverView, c: FuzzyCommandView) -> Seq<FuzzyCommandView> {
    if s.active {
        seq![c]
    } else if awaited_after(s, c) == Set::<NID>::empty() {
        held_back_after(s, c)
    } else {
        Seq::empty()
    }
}

impl FuzzyDriver {
    /// A driver for the nodes `node_set`. With `enable_initialize` the
    /// barrier is up at first and awaits each of the nodes; without, it
    /// is down.
    pub fn new(node_set: &Vec<NID>, enable_initialize: bool) -> (driver: FuzzyDriver)
        ensures
            driver@ == (DriverView {
                inner: InnerView { sequence: 0, blocked: Set::empty() },
                awaited: node_set@.to_set(),
                held_back: Seq::empty(),
                active: !enable_initialize,
            }),
    {
        let mut nodes = nodes_new();
        let mut i: usize = 0;
        while i < node_set.len()
            invariant
                i <= node_set.len(),
                held_nodes(nodes) == node_set@.take(i as int).to_set(),
            decreases node_set.len() - i,
        {
            nodes_insert(&mut nodes, node_set[i]);
            proof {
                let short = node_set@.take(i as int);
                let long = node_set@.take(i + 1);
                assert(long =~= short.push(node_set@[i as int]));
                assert forall|n: NID| long.to_set().contains(n) <==> short.to_set().insert(
                    node_set@[i as int],
                ).contains(n) by {
                    if long.contains(n) {
                        let p = choose|p: int| 0 <= p < long.len() && long[p] == n;
                        if p < i {
                            assert(short[p] == n);
                        }
                    }
                    if short.contains(n) {
                        let p = choose|p: int| 0 <= p < short.len() && short[p] == n;
                        assert(long[p] == n);
                    }
                    if n == node_set@[i as int] {
                        assert(long[i as int] == n);
                    }
                }
                assert(long.to_set() =~= short.to_set().insert(node_set@[i as int]));
            }
            i += 1;
        }
        proof {
            assert(node_set@.take(i as int) =~= node_set@);
            assert(node_set@.take(0).to_set() =~= Set::<NID>::empty());
        }
        let held_back: Vec<FuzzyCommand> = Vec::new();
        proof {
            assert(command_views(held_back@) =~= Seq::<FuzzyCommandView>::empty());
        }
        FuzzyDriver {
            inner: FuzzyInner::new(),
            node_set: nodes,
            held_back,
            active: !enable_initialize,
        }
    }

    /// Takes a command that has arrived and returns the commands that are
    /// to be handled now. While the barrier is up, a node that reports
    /// is awaited no longer and any other command is held back; the
    /// command after which no node is awaited takes the barrier down.
    pub fn on_message(&mut self, command: FuzzyCommand) -> (ready: Vec<FuzzyCommand>)
        ensures
            final(self)@ == admitted(old(self)@, command@),
            command_views(ready@) == released(old(self)@, command@),
    {
        let mut ready: Vec<FuzzyCommand> = Vec::new();
        if self.active {
            ready.push(command);
            proof {
                assert(command_views(ready@) =~= seq![command@]);
            }
            return ready;
        }
        let ghost before = self.held_back@;
        match command {
            FuzzyCommand::Initialize(m) => {
                nodes_remove(&mut self.node_set, m.source());
            },
            FuzzyCommand::MessageReq(m) => {
                let kept = FuzzyCommand::MessageReq(m);
                self.held_back.push(kept);
                proof {
                    assert(command_views(before.push(kept)) =~= command_views(before).push(kept@));
                }
            },
        }
        if nodes_is_empty(&self.node_set) {
            self.active = true;
            core::mem::swap(&mut ready, &mut self.held_back);
            proof {
                assert(command_views(self.held_back@) =~= Seq::<FuzzyCommandView>::empty());
            }
        } else {
            proof {
                assert(command_views(ready@) =~= Seq::<FuzzyCommandView>::empty());
            }
        }
        ready
    }

    /// Handles one command: has the generator decide its events and
    /// gives each the next id of the sequence. Only a message request is
    /// handled; any other command is rejected and changes nothing.
    pub fn handle(
        &mut self,
        generator: &EventGen,
        command: &FuzzyCommand,
        u: &mut arbitrary::Unstructured,
    ) -> (r: Result<Handled, DriverError>)
        ensures
            command@ is Initialize ==> r is Err && r->Err_0 == DriverError::UnexpectedCommand
                && final(self)@ == old(self)@ && remaining(*final(u)) == remaining(*old(u)),
            command@ matches FuzzyCommandView::MessageReq(m) ==> r is Ok && handled_as(
                outcome(generator@, m, remaining(*old(u))),
                old(self)@,
                final(self)@,
                r->Ok_0,
                remaining(*final(u)),
            ),
    {
        match command {
            FuzzyCommand::Initialize(_) => Err(DriverError::UnexpectedCommand),
            FuzzyCommand::MessageReq(message) => {
                let mut events: Vec<FuzzyEvent> = Vec::new();
                let complete = generator.fuzz_message(message, u, &mut events);
                proof {
                    let o = outcome(generator@, message@, remaining(*old(u)));
                    assert(event_views(Seq::<FuzzyEvent>::empty()) + o.events =~= o.events);
                }
                let actions = self.inner.assign_ids(&events);
                Ok(Handled { actions, complete })
            },
        }
    }

    /// Handles one command with any generator: has the generator decide
    /// the events of the command, and gives each of them the next id of
    /// the sequence, in the order in which the generator decided them.
    pub fn incoming_command<G: FuzzyGenerator>(
        &mut self,
        generator: &G,
        command: FuzzyCommand,
    ) -> (actions: Vec<Action>)
        ensures
            generator.decides(command@, action_events(actions@)),
            action_ids(actions@) == ids_taken(old(self)@.inner, assigns(actions@.len())),
            final(self)@ == (DriverView {
                inner: run(old(self)@.inner, assigns(actions@.len())),
                ..old(self)@
            }),
    {
        let events = generator.gen(command);
        let actions = self.inner.assign_ids(&events);
        proof {
            assert(action_events(actions@).len() == actions@.len());
        }
        actions
    }

    /// Carries out one step of the event `action_id` and says what is
    /// left for the caller to do.
    pub fn perform(&mut self, action_id: u64, step: Step) -> (e: Effect)
        ensures
            final(self)@ == (DriverView {
                inner: apply(old(self)@.inner, Op::Perform(action_id, step@)),
                ..old(self)@
            }),
            e@ == effect(old(self)@.inner, action_id, step@),
    {
        self.inner.perform(action_id, step)
    }
}

/// Whether the driver, in handling a command whose generation came out
/// as `o`, went from the state `before` to the state `after` with the
/// result `h` and the bytes `rest` left: the events are those of `o`,
/// each under the next id, and only the sequence has moved.
pub open spec fn handled_as(
    o: crate::event_gen::Outcome,
    before: DriverView,
    after: DriverView,
    h: Handled,
    rest: Seq<u8>,
) -> bool {
    &&& action_events(h.actions@) == o.events
    &&& action_ids(h.actions@) == ids_taken(before.inner, assigns(o.events.len()))
    &&& h.complete == o.complete
    &&& rest == o.rest
    &&& after == (DriverView { inner: run(before.inner, assigns(o.events.len())), ..before })
}

} // verus!

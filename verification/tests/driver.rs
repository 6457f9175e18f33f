use arbitrary::Unstructured;
use scupt_fuzzy::event_gen::EventGen;
use scupt_fuzzy::fuzzy_command::{FuzzyCmdType, FuzzyCommand};
use scupt_fuzzy::fuzzy_driver::{
    after_send, Action, DriverError, Effect, FuzzyDriver, FuzzyInner, Reaction, SendResult, Step,
};
use scupt_fuzzy::fuzzy_event::FuzzyEvent;
use scupt_fuzzy::fuzzy_generator::FuzzyGenerator;
use scupt_fuzzy::fuzzy_setting::{FuzzySetting, Ratio};
use scupt_fuzzy::message::Message;

fn letter(source: u64, dest: u64) -> Message {
    Message::new(format!("{}->{}", source, dest), source, dest)
}

fn steps_of(event: &FuzzyEvent) -> Vec<String> {
    FuzzyInner::schedule(event).iter().map(|s| format!("{:?}", s)).collect()
}

fn shown(steps: Vec<Step>) -> Vec<String> {
    steps.iter().map(|s| format!("{:?}", s)).collect()
}

fn delay_setting() -> FuzzySetting {
    FuzzySetting {
        crash_restart_payload: vec![("c".to_string(), "r".to_string())],
        restart_after_max_ms: 50,
        node: vec![1, 2],
        message_max_duplicated: 0,
        message_max_delay_ms: 100,
        crash_ratio: Ratio::new(255),
        network_partition_ratio: Ratio::new(0),
        partition_end_after_max_ms: 0,
        message_delay_ratio: Ratio::new(0),
        message_repeat_ratio: Ratio::new(0),
        message_lost_ratio: Ratio::new(0),
    }
}

struct Fixed {
    events: Vec<FuzzyEvent>,
}

impl FuzzyGenerator for Fixed {
    fn gen(&self, _cmd: FuzzyCommand) -> Vec<FuzzyEvent> {
        self.events.clone()
    }
}

#[test]
fn ids_count_up_from_zero() {
    let mut inner = FuzzyInner::new();
    assert_eq!(inner.gen_id(), 0);
    assert_eq!(inner.gen_id(), 1);
    assert_eq!(inner.gen_id(), 2);
    let sent = inner.send(0, letter(1, 2)).unwrap();
    assert_eq!((sent.id, sent.action_id), (3, 0));
    assert_eq!(inner.gen_id(), 4);
}

#[test]
fn ids_rise_over_events_and_deliveries() {
    let mut inner = FuzzyInner::new();
    let mut ids = Vec::new();
    let events = vec![
        FuzzyEvent::Delay(0, letter(1, 2)),
        FuzzyEvent::Crash(letter(2, 2)),
        FuzzyEvent::PartitionStart(vec![1], vec![2]),
        FuzzyEvent::Delay(0, letter(1, 2)),
        FuzzyEvent::Delay(0, letter(2, 1)),
    ];
    let actions = inner.assign_ids(&events);
    for action in &actions {
        ids.push(action.id);
    }
    for action in actions {
        for step in FuzzyInner::schedule(&action.event) {
            if let Effect::Send(delivery) = inner.perform(action.id, step) {
                assert_eq!(delivery.action_id, action.id);
                ids.push(delivery.id);
            }
        }
    }
    ids.push(inner.gen_id());
    assert_eq!(ids, vec![0, 1, 2, 3, 4, 5, 6, 7, 8]);
}

#[test]
fn schedule_lists_the_steps_of_each_event() {
    let m = letter(1, 2);
    assert_eq!(
        steps_of(&FuzzyEvent::Delay(30, m.clone())),
        shown(vec![Step::Wait(30), Step::Deliver(m.clone())])
    );
    assert_eq!(steps_of(&FuzzyEvent::Delay(0, m.clone())), shown(vec![Step::Deliver(m.clone())]));
    assert_eq!(steps_of(&FuzzyEvent::Lost), shown(vec![]));
    assert_eq!(
        steps_of(&FuzzyEvent::Duplicate(vec![5, 0, 7], m.clone())),
        shown(vec![
            Step::Wait(5),
            Step::Deliver(m.clone()),
            Step::Wait(0),
            Step::Deliver(m.clone()),
            Step::Wait(7),
            Step::Deliver(m.clone()),
        ])
    );
    assert_eq!(steps_of(&FuzzyEvent::Duplicate(vec![], m.clone())), shown(vec![]));
    assert_eq!(steps_of(&FuzzyEvent::Crash(m.clone())), shown(vec![Step::Deliver(m.clone())]));
    assert_eq!(
        steps_of(&FuzzyEvent::Restart(0, m.clone())),
        shown(vec![Step::Wait(0), Step::Deliver(m.clone())])
    );
    assert_eq!(
        steps_of(&FuzzyEvent::PartitionStart(vec![1], vec![2, 3])),
        shown(vec![Step::Block(vec![1], vec![2, 3])])
    );
    assert_eq!(
        steps_of(&FuzzyEvent::PartitionRecovery(9, vec![1], vec![2, 3])),
        shown(vec![Step::Wait(9), Step::Unblock(vec![1], vec![2, 3])])
    );
}

#[test]
fn perform_says_what_is_left_to_do() {
    let mut inner = FuzzyInner::new();
    assert!(matches!(inner.perform(4, Step::Wait(12)), Effect::Sleep(12)));
    match inner.perform(4, Step::Deliver(letter(1, 2))) {
        Effect::Send(d) => {
            assert_eq!((d.id, d.action_id), (0, 4));
            assert_eq!(d.message, letter(1, 2));
        }
        other => panic!("not sent: {:?}", other),
    }
    assert!(matches!(inner.perform(5, Step::Block(vec![1], vec![2])), Effect::Done));
    assert!(!inner.can_connect(1, 2));
    assert!(matches!(inner.perform(6, Step::Deliver(letter(1, 2))), Effect::Dropped));
    assert!(matches!(inner.perform(7, Step::Unblock(vec![1], vec![2])), Effect::Done));
    assert!(inner.can_connect(1, 2));
    assert_eq!(inner.gen_id(), 1);
}

#[test]
fn blocked_message_is_not_delivered_until_recovery() {
    let mut inner = FuzzyInner::new();
    inner.partition_start(&vec![1], &vec![2]);
    assert!(inner.send(10, letter(1, 2)).is_none());
    assert!(inner.send(10, letter(1, 2)).is_none());
    let other_way = inner.send(11, letter(2, 1)).unwrap();
    assert_eq!((other_way.id, other_way.action_id), (0, 11));
    inner.partition_start(&vec![3], &vec![4]);
    inner.partition_end(&vec![3], &vec![4]);
    assert!(inner.send(10, letter(1, 2)).is_none());
    inner.partition_end(&vec![1], &vec![2]);
    let through = inner.send(10, letter(1, 2)).unwrap();
    assert_eq!((through.id, through.action_id), (1, 10));
    assert_eq!(through.message, letter(1, 2));
}

#[test]
fn partition_holds_for_every_pair_it_cuts() {
    let mut inner = FuzzyInner::new();
    let first = vec![1, 2];
    let second = vec![3, 4, 5];
    assert!(matches!(inner.perform(0, Step::Block(first.clone(), second.clone())), Effect::Done));
    for round in 0..3 {
        for a in &first {
            for b in &second {
                assert!(matches!(
                    inner.perform(round, Step::Deliver(letter(*a, *b))),
                    Effect::Dropped
                ));
                assert!(matches!(
                    inner.perform(round, Step::Deliver(letter(*b, *a))),
                    Effect::Send(_)
                ));
            }
        }
        inner.gen_id();
    }
    inner.perform(1, Step::Unblock(first.clone(), second.clone()));
    for a in &first {
        for b in &second {
            assert!(matches!(inner.perform(2, Step::Deliver(letter(*a, *b))), Effect::Send(_)));
        }
    }
}

#[test]
fn no_events_take_no_id() {
    let mut inner = FuzzyInner::new();
    let events: Vec<FuzzyEvent> = Vec::new();
    assert!(inner.assign_ids(&events).is_empty());
    assert_eq!(inner.gen_id(), 0);
}

#[test]
fn the_barrier_holds_commands_until_every_node_reported() {
    let mut driver = FuzzyDriver::new(&vec![1, 2, 2], true);
    let first = FuzzyCommand::MessageReq(letter(1, 2));
    let second = FuzzyCommand::MessageReq(letter(2, 1));
    let third = FuzzyCommand::MessageReq(letter(1, 1));
    assert_eq!(driver.on_message(first.clone()), vec![]);
    assert_eq!(driver.on_message(FuzzyCommand::Initialize(letter(1, 0))), vec![]);
    assert_eq!(driver.on_message(FuzzyCommand::Initialize(letter(1, 0))), vec![]);
    assert_eq!(driver.on_message(FuzzyCommand::Initialize(letter(9, 0))), vec![]);
    assert_eq!(driver.on_message(second.clone()), vec![]);
    assert_eq!(
        driver.on_message(FuzzyCommand::Initialize(letter(2, 0))),
        vec![first.clone(), second.clone()]
    );
    assert_eq!(driver.on_message(third.clone()), vec![third.clone()]);
    let late = FuzzyCommand::Initialize(letter(2, 0));
    assert_eq!(driver.on_message(late.clone()), vec![late]);
}

#[test]
fn the_barrier_falls_with_the_command_that_finds_no_node_awaited() {
    let mut driver = FuzzyDriver::new(&vec![], true);
    let first = FuzzyCommand::MessageReq(letter(1, 2));
    assert_eq!(driver.on_message(first.clone()), vec![first.clone()]);
    assert_eq!(driver.on_message(first.clone()), vec![first]);

    let mut driver = FuzzyDriver::new(&vec![3], true);
    let last = FuzzyCommand::MessageReq(letter(3, 2));
    assert_eq!(driver.on_message(FuzzyCommand::Initialize(letter(3, 3))), vec![]);
    assert_eq!(driver.on_message(last.clone()), vec![last]);
}

#[test]
fn without_a_barrier_every_command_passes() {
    let mut driver = FuzzyDriver::new(&vec![1, 2], false);
    let first = FuzzyCommand::MessageReq(letter(1, 2));
    assert_eq!(driver.on_message(first.clone()), vec![first]);
    let report = FuzzyCommand::Initialize(letter(1, 2));
    assert_eq!(driver.on_message(report.clone()), vec![report]);
}

#[test]
fn handle_numbers_the_events_of_a_message_request() {
    let generator = EventGen::new(vec![1, 2], delay_setting());
    let mut driver = FuzzyDriver::new(&vec![1, 2], false);
    let mut data = vec![0, 0, 0];
    data.extend_from_slice(&0u32.to_le_bytes());
    data.extend_from_slice(&77u64.to_le_bytes());
    data.push(0);
    data.extend_from_slice(&[0, 0, 0]);
    let mut u = Unstructured::new(&data);

    let handled = driver.handle(&generator, &FuzzyCommand::MessageReq(letter(1, 2)), &mut u).unwrap();
    assert!(handled.complete);
    let seen: Vec<(u64, FuzzyEvent)> = handled.actions.into_iter().map(|a| (a.id, a.event)).collect();
    assert_eq!(
        seen,
        vec![
            (0, FuzzyEvent::Delay(0, letter(1, 2))),
            (1, FuzzyEvent::Crash(Message::new("c".to_string(), 2, 2))),
            (2, FuzzyEvent::Restart(27, Message::new("r".to_string(), 2, 2))),
        ]
    );
    assert_eq!(u.len(), 3);

    let handled = driver.handle(&generator, &FuzzyCommand::MessageReq(letter(2, 1)), &mut u).unwrap();
    assert!(!handled.complete);
    let seen: Vec<(u64, FuzzyEvent)> = handled.actions.into_iter().map(|a| (a.id, a.event)).collect();
    assert_eq!(seen, vec![(3, FuzzyEvent::Delay(0, letter(2, 1)))]);
    assert_eq!(u.len(), 0);
}

#[test]
fn handle_rejects_what_is_no_message_request() {
    let generator = EventGen::new(vec![1, 2], delay_setting());
    let mut driver = FuzzyDriver::new(&vec![1, 2], false);
    let data = [0u8; 4];
    let mut u = Unstructured::new(&data);
    let rejected = driver.handle(&generator, &FuzzyCommand::Initialize(letter(1, 2)), &mut u);
    assert_eq!(rejected.unwrap_err(), DriverError::UnexpectedCommand);
    assert_eq!(
        DriverError::UnexpectedCommand.describe(),
        "unexpected command: only a message request can be fuzzed"
    );
    assert_eq!(u.len(), 4);
    let next: Vec<Action> = driver.incoming_command(
        &Fixed { events: vec![FuzzyEvent::Lost] },
        FuzzyCommand::MessageReq(letter(1, 2)),
    );
    assert_eq!(next[0].id, 0);
}

#[test]
fn incoming_command_numbers_what_the_generator_returns() {
    let mut driver = FuzzyDriver::new(&vec![1, 2], false);
    let fixed = Fixed { events: vec![FuzzyEvent::Lost, FuzzyEvent::Crash(letter(1, 1))] };
    let first = driver.incoming_command(&fixed, FuzzyCommand::MessageReq(letter(1, 2)));
    let second = driver.incoming_command(&fixed, FuzzyCommand::MessageReq(letter(1, 2)));
    let ids: Vec<u64> = first.iter().chain(second.iter()).map(|a| a.id).collect();
    assert_eq!(ids, vec![0, 1, 2, 3]);
    assert_eq!(first[1].event, FuzzyEvent::Crash(letter(1, 1)));
    match driver.perform(second[1].id, Step::Deliver(letter(1, 1))) {
        Effect::Send(d) => assert_eq!((d.id, d.action_id), (4, 3)),
        other => panic!("not sent: {:?}", other),
    }
}

#[test]
fn a_transport_that_is_not_connected_is_connected_again_once() {
    assert_eq!(after_send(SendResult::Sent, false), Reaction::Finish);
    assert_eq!(after_send(SendResult::Sent, true), Reaction::Finish);
    assert_eq!(after_send(SendResult::NotConnected, false), Reaction::Reconnect);
    assert_eq!(after_send(SendResult::NotConnected, true), Reaction::Fail);
    assert_eq!(after_send(SendResult::Failed, false), Reaction::Fail);
    assert_eq!(after_send(SendResult::Failed, true), Reaction::Fail);
}

#[test]
fn commands_know_their_kind() {
    let m = letter(1, 2);
    let request = FuzzyCommand::of_type(FuzzyCmdType::MessageReq, m.clone());
    let report = FuzzyCommand::of_type(FuzzyCmdType::Initialize, m.clone());
    assert_eq!(request, FuzzyCommand::MessageReq(m.clone()));
    assert_eq!(report, FuzzyCommand::Initialize(m.clone()));
    assert_eq!(request.command_type(), FuzzyCmdType::MessageReq);
    assert_eq!(report.command_type(), FuzzyCmdType::Initialize);
    assert_eq!(request.message(), &m);
    assert_eq!(report.message(), &m);
    assert_eq!(request.clone(), request);
    assert_eq!(m.source(), 1);
    assert_eq!(m.dest(), 2);
    assert_eq!(m.payload(), "1->2");
}

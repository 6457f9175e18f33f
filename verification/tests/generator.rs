use arbitrary::Unstructured;
use scupt_fuzzy::event_gen::EventGen;
use scupt_fuzzy::fuzzy_event::FuzzyEvent;
use scupt_fuzzy::fuzzy_setting::{FuzzySetting, Ratio};
use scupt_fuzzy::message::Message;

/// The ratio that a probability stands for: the number of decision bytes
/// `b` with `b / 255 < p`.
fn ratio_of(p: f64) -> Ratio {
    let mut passing: u16 = 0;
    for b in 0..=255u16 {
        if (b as f64 / u8::MAX as f64) < p {
            passing += 1;
        }
    }
    Ratio::new(passing.min(255) as u8)
}

fn quiet_setting() -> FuzzySetting {
    FuzzySetting {
        crash_restart_payload: vec![],
        restart_after_max_ms: 0,
        node: vec![],
        message_max_duplicated: 0,
        message_max_delay_ms: 0,
        crash_ratio: Ratio::new(0),
        network_partition_ratio: Ratio::new(0),
        partition_end_after_max_ms: 0,
        message_delay_ratio: Ratio::new(0),
        message_repeat_ratio: Ratio::new(0),
        message_lost_ratio: Ratio::new(0),
    }
}

fn request() -> Message {
    Message::new("payload".to_string(), 1, 2)
}

fn run(generator: &EventGen, message: &Message, data: &[u8]) -> (Vec<FuzzyEvent>, bool, usize) {
    let mut u = Unstructured::new(data);
    let mut events = Vec::new();
    let complete = generator.fuzz_message(message, &mut u, &mut events);
    (events, complete, u.len())
}

/// A stream of bytes that looks arbitrary and is the same each time.
fn stream(seed: u64, len: usize) -> Vec<u8> {
    let mut state = seed;
    let mut out = Vec::with_capacity(len);
    for _ in 0..len {
        state = state.wrapping_mul(6364136223846793005).wrapping_add(1442695040888963407);
        out.push((state >> 33) as u8);
    }
    out
}

fn busy_setting() -> FuzzySetting {
    FuzzySetting {
        crash_restart_payload: vec![
            ("crash-a".to_string(), "restart-a".to_string()),
            ("crash-b".to_string(), "restart-b".to_string()),
        ],
        restart_after_max_ms: 70,
        node: vec![1, 2, 3, 4, 5],
        message_max_duplicated: 4,
        message_max_delay_ms: 90,
        crash_ratio: ratio_of(0.5),
        network_partition_ratio: ratio_of(0.5),
        partition_end_after_max_ms: 300,
        message_delay_ratio: ratio_of(0.5),
        message_repeat_ratio: ratio_of(0.5),
        message_lost_ratio: ratio_of(0.0),
    }
}

#[test]
fn ratio_counts_the_bytes_below_the_probability() {
    assert_eq!(ratio_of(0.0), Ratio::new(0));
    assert_eq!(ratio_of(1.0), Ratio::new(255));
    assert_eq!(ratio_of(0.5), Ratio::new(128));
    assert!(ratio_of(1.0).passes(254));
    assert!(!ratio_of(1.0).passes(255));
    assert!(!ratio_of(0.0).passes(0));
    assert!(ratio_of(0.5).passes(127));
    assert!(!ratio_of(0.5).passes(128));
}

#[test]
fn undelayed_message_is_delivered_at_once() {
    let generator = EventGen::new(vec![1, 2], quiet_setting());
    let (events, complete, left) = run(&generator, &request(), &[9, 9, 9, 9]);
    assert_eq!(events, vec![FuzzyEvent::Delay(0, request())]);
    assert!(complete);
    assert_eq!(left, 0);
}

#[test]
fn delay_is_the_drawn_number_modulo_the_bound() {
    let mut setting = quiet_setting();
    setting.message_delay_ratio = Ratio::new(255);
    setting.message_max_delay_ms = 100;
    let generator = EventGen::new(vec![1, 2], setting);
    let mut data = vec![0x10];
    data.extend_from_slice(&1234u64.to_le_bytes());
    data.extend_from_slice(&[0, 0, 0]);
    let (events, complete, left) = run(&generator, &request(), &data);
    assert_eq!(events, vec![FuzzyEvent::Delay(34, request())]);
    assert!(complete);
    assert_eq!(left, 0);
}

#[test]
fn delay_is_zero_where_the_bound_is_zero() {
    let mut setting = quiet_setting();
    setting.message_delay_ratio = Ratio::new(255);
    setting.message_max_delay_ms = 0;
    let generator = EventGen::new(vec![1, 2], setting);
    let mut data = vec![0x10];
    data.extend_from_slice(&1234u64.to_le_bytes());
    data.extend_from_slice(&[0, 0, 0]);
    let (events, complete, _) = run(&generator, &request(), &data);
    assert_eq!(events, vec![FuzzyEvent::Delay(0, request())]);
    assert!(complete);
}

#[test]
fn repeats_draw_a_delay_each() {
    let mut setting = quiet_setting();
    setting.message_repeat_ratio = Ratio::new(255);
    setting.message_max_duplicated = 3;
    setting.message_max_delay_ms = 10;
    let generator = EventGen::new(vec![1, 2], setting);
    let mut data = vec![5, 5];
    data.extend_from_slice(&8u64.to_le_bytes());
    data.extend_from_slice(&25u64.to_le_bytes());
    data.extend_from_slice(&19u64.to_le_bytes());
    data.extend_from_slice(&[0, 0]);
    let (events, complete, left) = run(&generator, &request(), &data);
    assert_eq!(
        events,
        vec![
            FuzzyEvent::Delay(0, request()),
            FuzzyEvent::Delay(5, request()),
            FuzzyEvent::Delay(9, request()),
        ]
    );
    assert!(complete);
    assert_eq!(left, 0);
}

#[test]
fn no_repeat_where_the_bound_is_zero() {
    let mut setting = quiet_setting();
    setting.message_repeat_ratio = Ratio::new(255);
    setting.message_max_duplicated = 0;
    let generator = EventGen::new(vec![1, 2], setting);
    let mut data = vec![5, 5];
    data.extend_from_slice(&8u64.to_le_bytes());
    data.extend_from_slice(&[0, 0]);
    let (events, complete, left) = run(&generator, &request(), &data);
    assert_eq!(events, vec![FuzzyEvent::Delay(0, request())]);
    assert!(complete);
    assert_eq!(left, 0);
}

#[test]
fn crash_picks_a_payload_pair_and_a_restart_time() {
    let mut setting = quiet_setting();
    setting.crash_ratio = Ratio::new(255);
    setting.crash_restart_payload = vec![
        ("c0".to_string(), "r0".to_string()),
        ("c1".to_string(), "r1".to_string()),
        ("c2".to_string(), "r2".to_string()),
    ];
    setting.restart_after_max_ms = 50;
    let generator = EventGen::new(vec![1, 2], setting);
    let mut data = vec![0xff, 0xff, 0x00];
    data.extend_from_slice(&11u32.to_le_bytes());
    data.extend_from_slice(&123u64.to_le_bytes());
    data.push(0);
    let (events, complete, left) = run(&generator, &request(), &data);
    assert_eq!(
        events,
        vec![
            FuzzyEvent::Delay(0, request()),
            FuzzyEvent::Crash(Message::new("c2".to_string(), 2, 2)),
            FuzzyEvent::Restart(23, Message::new("r2".to_string(), 2, 2)),
        ]
    );
    assert!(complete);
    assert_eq!(left, 0);
}

#[test]
fn crash_needs_a_payload_and_a_bound() {
    let mut no_payload = quiet_setting();
    no_payload.crash_ratio = Ratio::new(255);
    no_payload.restart_after_max_ms = 50;
    let mut no_bound = quiet_setting();
    no_bound.crash_ratio = Ratio::new(255);
    no_bound.crash_restart_payload = vec![("c".to_string(), "r".to_string())];
    for setting in [no_payload, no_bound] {
        let generator = EventGen::new(vec![1, 2], setting);
        let (events, complete, left) = run(&generator, &request(), &[0, 0, 0, 0]);
        assert_eq!(events, vec![FuzzyEvent::Delay(0, request())]);
        assert!(complete);
        assert_eq!(left, 0);
    }
    for seed in 0..50u64 {
        let mut setting = busy_setting();
        setting.crash_restart_payload = vec![];
        let generator = EventGen::new(vec![1, 2, 3], setting);
        let (events, _, _) = run(&generator, &request(), &stream(seed, 120));
        for event in events {
            assert!(!matches!(event, FuzzyEvent::Crash(_) | FuzzyEvent::Restart(_, _)));
        }
    }
}

#[test]
fn partition_takes_the_first_in_rank_order() {
    let mut setting = quiet_setting();
    setting.network_partition_ratio = Ratio::new(255);
    setting.partition_end_after_max_ms = 1000;
    let generator = EventGen::new(vec![3, 1, 2], setting);
    let mut data = vec![0, 0, 0, 1];
    data.extend_from_slice(&0u64.to_le_bytes());
    data.extend_from_slice(&2500u64.to_le_bytes());
    data.extend_from_slice(&7u16.to_le_bytes());
    data.extend_from_slice(&2u16.to_le_bytes());
    data.extend_from_slice(&7u16.to_le_bytes());
    let (events, complete, left) = run(&generator, &request(), &data);
    assert_eq!(
        events,
        vec![
            FuzzyEvent::Delay(0, request()),
            FuzzyEvent::PartitionStart(vec![2], vec![1, 3]),
            FuzzyEvent::PartitionRecovery(500, vec![2], vec![1, 3]),
        ]
    );
    assert!(complete);
    assert_eq!(left, 0);
}

#[test]
fn partition_of_two_from_three() {
    let mut setting = quiet_setting();
    setting.network_partition_ratio = Ratio::new(255);
    setting.partition_end_after_max_ms = 1000;
    let generator = EventGen::new(vec![10, 20, 30], setting);
    let mut data = vec![0, 0, 0, 1];
    data.extend_from_slice(&4u64.to_le_bytes());
    data.extend_from_slice(&999u64.to_le_bytes());
    data.extend_from_slice(&9u16.to_le_bytes());
    data.extend_from_slice(&9u16.to_le_bytes());
    data.extend_from_slice(&1u16.to_le_bytes());
    let (events, complete, _) = run(&generator, &request(), &data);
    assert_eq!(
        events,
        vec![
            FuzzyEvent::Delay(0, request()),
            FuzzyEvent::PartitionStart(vec![30, 10], vec![20]),
            FuzzyEvent::PartitionRecovery(999, vec![30, 10], vec![20]),
        ]
    );
    assert!(complete);
}

#[test]
fn partition_that_would_take_every_node_is_rejected() {
    let mut setting = quiet_setting();
    setting.network_partition_ratio = Ratio::new(255);
    setting.partition_end_after_max_ms = 1000;
    let generator = EventGen::new(vec![1, 2, 3], setting);
    let mut data = vec![0, 0, 0, 1];
    data.extend_from_slice(&2u64.to_le_bytes());
    data.extend_from_slice(&[1, 2, 3]);
    let (events, complete, left) = run(&generator, &request(), &data);
    assert_eq!(events, vec![FuzzyEvent::Delay(0, request())]);
    assert!(complete);
    assert_eq!(left, 3);
}

#[test]
fn partition_needs_two_nodes_and_a_bound() {
    let mut setting = quiet_setting();
    setting.network_partition_ratio = Ratio::new(255);
    setting.partition_end_after_max_ms = 1000;
    let lonely = EventGen::new(vec![7, 7, 7], setting.clone());
    let (events, complete, left) = run(&lonely, &request(), &[0, 0, 0, 1, 5, 5]);
    assert_eq!(events, vec![FuzzyEvent::Delay(0, request())]);
    assert!(complete);
    assert_eq!(left, 2);
    setting.partition_end_after_max_ms = 0;
    let unbounded = EventGen::new(vec![1, 2, 3], setting);
    let (events, complete, left) = run(&unbounded, &request(), &[0, 0, 0, 1, 5, 5]);
    assert_eq!(events, vec![FuzzyEvent::Delay(0, request())]);
    assert!(complete);
    assert_eq!(left, 2);
}

#[test]
fn generation_stops_where_the_bytes_end() {
    let mut setting = quiet_setting();
    setting.message_delay_ratio = Ratio::new(255);
    setting.message_max_delay_ms = 100;
    let generator = EventGen::new(vec![1, 2], setting);

    let (events, complete, left) = run(&generator, &request(), &[]);
    assert_eq!(events, vec![]);
    assert!(!complete);
    assert_eq!(left, 0);

    let (events, complete, left) = run(&generator, &request(), &[1, 2, 3, 4]);
    assert_eq!(events, vec![]);
    assert!(!complete);
    assert_eq!(left, 3);

    let mut data = vec![1];
    data.extend_from_slice(&250u64.to_le_bytes());
    let (events, complete, left) = run(&generator, &request(), &data);
    assert_eq!(events, vec![FuzzyEvent::Delay(50, request())]);
    assert!(!complete);
    assert_eq!(left, 0);

    data.extend_from_slice(&[0, 0]);
    let (events, complete, left) = run(&generator, &request(), &data);
    assert_eq!(events, vec![FuzzyEvent::Delay(50, request())]);
    assert!(!complete);
    assert_eq!(left, 0);
}

#[test]
fn partition_stops_where_a_rank_is_missing() {
    let mut setting = quiet_setting();
    setting.network_partition_ratio = Ratio::new(255);
    setting.partition_end_after_max_ms = 1000;
    let generator = EventGen::new(vec![1, 2, 3], setting);
    let mut data = vec![0, 0, 0, 1];
    data.extend_from_slice(&0u64.to_le_bytes());
    data.extend_from_slice(&2500u64.to_le_bytes());
    data.extend_from_slice(&[1, 0, 2, 0, 3]);
    let (events, complete, left) = run(&generator, &request(), &data);
    assert_eq!(events, vec![FuzzyEvent::Delay(0, request())]);
    assert!(!complete);
    assert_eq!(left, 1);
}

#[test]
fn events_are_appended_to_those_already_there() {
    let generator = EventGen::new(vec![1, 2], quiet_setting());
    let data = [0u8; 8];
    let mut u = Unstructured::new(&data);
    let mut events = vec![FuzzyEvent::Lost];
    assert!(generator.fuzz_message(&request(), &mut u, &mut events));
    assert!(generator.fuzz_message(&request(), &mut u, &mut events));
    assert_eq!(
        events,
        vec![FuzzyEvent::Lost, FuzzyEvent::Delay(0, request()), FuzzyEvent::Delay(0, request())]
    );
    assert_eq!(u.len(), 0);
}

#[test]
fn generation_is_deterministic() {
    let generator = EventGen::new(vec![5, 4, 3, 2, 1], busy_setting());
    let copy = generator.clone();
    for seed in 0..100u64 {
        let data = stream(seed, 150);
        let first = run(&generator, &request(), &data);
        let second = run(&generator, &request(), &data);
        let third = run(&copy, &request(), &data);
        assert_eq!(first, second);
        assert_eq!(first, third);
    }
}

#[test]
fn every_delay_is_below_the_bound() {
    let generator = EventGen::new(vec![1, 2, 3, 4, 5], busy_setting());
    let mut unbounded = busy_setting();
    unbounded.message_max_delay_ms = 0;
    let flat = EventGen::new(vec![1, 2, 3, 4, 5], unbounded);
    for seed in 0..200u64 {
        let data = stream(seed, 150);
        for event in run(&generator, &request(), &data).0 {
            if let FuzzyEvent::Delay(ms, _) = event {
                assert!(ms < 90);
            }
        }
        for event in run(&flat, &request(), &data).0 {
            if let FuzzyEvent::Delay(ms, _) = event {
                assert_eq!(ms, 0);
            }
        }
    }
}

#[test]
fn repeats_stay_below_the_bound() {
    let generator = EventGen::new(vec![1, 2, 3, 4, 5], busy_setting());
    let mut seen_repeat = false;
    for seed in 0..200u64 {
        let data = stream(seed, 150);
        let delays = run(&generator, &request(), &data)
            .0
            .iter()
            .filter(|e| matches!(e, FuzzyEvent::Delay(_, _)))
            .count();
        assert!(delays <= 4);
        seen_repeat = seen_repeat || delays > 1;
    }
    assert!(seen_repeat);
}

#[test]
fn every_partition_splits_the_nodes() {
    let generator = EventGen::new(vec![4, 2, 5, 1, 3, 3], busy_setting());
    let mut seen_partition = false;
    for seed in 0..300u64 {
        let data = stream(seed, 150);
        for event in run(&generator, &request(), &data).0 {
            let (ms, first, second) = match event {
                FuzzyEvent::PartitionStart(a, b) => (0, a, b),
                FuzzyEvent::PartitionRecovery(ms, a, b) => (ms, a, b),
                _ => continue,
            };
            seen_partition = true;
            assert!(ms < 300);
            assert!(!first.is_empty());
            assert!(!second.is_empty());
            assert!(first.iter().all(|n| !second.contains(n)));
            let mut all: Vec<u64> = first.iter().chain(second.iter()).copied().collect();
            all.sort();
            assert_eq!(all, vec![1, 2, 3, 4, 5]);
        }
    }
    assert!(seen_partition);
}

#[test]
fn with_ratio_one_every_message_draws_its_delay() {
    let mut setting = quiet_setting();
    setting.message_delay_ratio = ratio_of(1.0);
    setting.message_max_delay_ms = 100;
    let generator = EventGen::new(vec![1, 2], setting);
    for seed in 0..200u64 {
        let data = stream(seed, 40);
        let (events, complete, _) = run(&generator, &request(), &data);
        assert!(complete);
        assert_eq!(events.len(), 1);
        match &events[0] {
            FuzzyEvent::Delay(ms, m) => {
                assert!(*ms < 100);
                assert_eq!(*m, request());
                if data[0] != 255 {
                    let drawn = u64::from_le_bytes(data[1..9].try_into().unwrap());
                    assert_eq!(*ms, drawn % 100);
                }
            }
            other => panic!("not a delay: {:?}", other),
        }
    }
}

#[test]
fn with_ratio_one_every_command_crashes_its_receiver() {
    let mut setting = busy_setting();
    setting.crash_ratio = ratio_of(1.0);
    setting.network_partition_ratio = ratio_of(0.0);
    setting.crash_restart_payload = vec![("c".to_string(), "r".to_string())];
    setting.restart_after_max_ms = 50;
    let generator = EventGen::new(vec![1, 2], setting);
    let mut checked = 0;
    for seed in 0..200u64 {
        let data = stream(seed, 80);
        let (events, complete, left) = run(&generator, &request(), &data);
        assert!(complete);
        let consumed = data.len() - left;
        let n = events.len();
        let crashed = n >= 2 && matches!(events[n - 2], FuzzyEvent::Crash(_));
        if !crashed {
            assert_eq!(data[consumed - 2], 255);
            continue;
        }
        assert_ne!(data[consumed - 14], 255);
        checked += 1;
        assert!(n >= 3);
        for event in &events[..n - 2] {
            assert!(matches!(event, FuzzyEvent::Delay(_, _)));
        }
        assert_eq!(events[n - 2], FuzzyEvent::Crash(Message::new("c".to_string(), 2, 2)));
        match &events[n - 1] {
            FuzzyEvent::Restart(ms, m) => {
                assert!(*ms < 50);
                assert_eq!(*m, Message::new("r".to_string(), 2, 2));
            }
            other => panic!("not a restart: {:?}", other),
        }
    }
    assert!(checked > 150);
}

#[test]
fn with_ratio_one_three_nodes_are_split() {
    let mut setting = quiet_setting();
    setting.network_partition_ratio = ratio_of(1.0);
    setting.partition_end_after_max_ms = 400;
    let generator = EventGen::new(vec![1, 2, 3], setting);
    let mut seen = 0;
    for seed in 0..300u64 {
        let data = stream(seed, 60);
        let (events, complete, _) = run(&generator, &request(), &data);
        assert!(complete);
        if events.len() == 1 {
            continue;
        }
        seen += 1;
        assert_eq!(events.len(), 3);
        let (first, second) = match &events[1] {
            FuzzyEvent::PartitionStart(a, b) => (a.clone(), b.clone()),
            other => panic!("not a partition: {:?}", other),
        };
        assert_eq!(first.len() + second.len(), 3);
        assert!(!first.is_empty() && !second.is_empty());
        match &events[2] {
            FuzzyEvent::PartitionRecovery(ms, a, b) => {
                assert!(*ms < 400);
                assert_eq!((a, b), (&first, &second));
            }
            other => panic!("not a recovery: {:?}", other),
        }
    }
    assert!(seen > 100);
}

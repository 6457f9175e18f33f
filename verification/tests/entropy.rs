use arbitrary::Unstructured;
use scupt_fuzzy::entropy::{draw_u16, draw_u32, draw_u64, draw_u8};
use scupt_fuzzy::event_gen::EventGen;
use scupt_fuzzy::fuzzy_event::FuzzyEvent;
use scupt_fuzzy::fuzzy_setting::{FuzzySetting, Ratio};
use scupt_fuzzy::message::Message;
use scupt_fuzzy::node_set::node_set;
use scupt_fuzzy::rank_order::order_by_rank;

#[test]
fn draws_read_little_endian_numbers_from_the_front() {
    let data = [0x01, 0x02, 0x03, 0x04, 0x05, 0x06, 0x07, 0x08, 0x09, 0x0a, 0x0b, 0x0c, 0x0d, 0x0e, 0x0f];
    let mut u = Unstructured::new(&data);
    assert_eq!(draw_u8(&mut u), Some(0x01));
    assert_eq!(u.len(), 14);
    assert_eq!(draw_u16(&mut u), Some(0x0302));
    assert_eq!(u.len(), 12);
    assert_eq!(draw_u32(&mut u), Some(0x0706_0504));
    assert_eq!(u.len(), 8);
    assert_eq!(draw_u64(&mut u), Some(0x0f0e_0d0c_0b0a_0908));
    assert_eq!(u.len(), 0);
}

#[test]
fn a_draw_that_cannot_be_served_takes_nothing() {
    let data = [0xaa, 0xbb, 0xcc];
    let mut u = Unstructured::new(&data);
    assert_eq!(draw_u64(&mut u), None);
    assert_eq!(u.len(), 3);
    assert_eq!(draw_u32(&mut u), None);
    assert_eq!(u.len(), 3);
    assert_eq!(draw_u16(&mut u), Some(0xbbaa));
    assert_eq!(draw_u16(&mut u), None);
    assert_eq!(u.len(), 1);
    assert_eq!(draw_u8(&mut u), Some(0xcc));
    assert_eq!(draw_u8(&mut u), None);
    assert_eq!(u.len(), 0);
}

#[test]
fn largest_numbers_are_drawn_whole() {
    let data = [0xff; 15];
    let mut u = Unstructured::new(&data);
    assert_eq!(draw_u64(&mut u), Some(u64::MAX));
    assert_eq!(draw_u32(&mut u), Some(u32::MAX));
    assert_eq!(draw_u16(&mut u), Some(u16::MAX));
    assert_eq!(draw_u8(&mut u), Some(u8::MAX));
}

#[test]
fn rank_order_is_stable() {
    assert_eq!(order_by_rank(&vec![]), Vec::<usize>::new());
    assert_eq!(order_by_rank(&vec![9]), vec![0]);
    assert_eq!(order_by_rank(&vec![5, 1, 5, 0]), vec![3, 1, 0, 2]);
    assert_eq!(order_by_rank(&vec![3, 3, 3]), vec![0, 1, 2]);
    assert_eq!(order_by_rank(&vec![4, 3, 2, 1, 0]), vec![4, 3, 2, 1, 0]);
    assert_eq!(order_by_rank(&vec![0, 65535, 1, 65535, 0]), vec![0, 4, 2, 1, 3]);
}

#[test]
fn node_set_ascends_without_repeats() {
    assert_eq!(node_set(&vec![]), Vec::<u64>::new());
    assert_eq!(node_set(&vec![3, 1, 3, 2, 1]), vec![1, 2, 3]);
    assert_eq!(node_set(&vec![u64::MAX, 0, 7]), vec![0, 7, u64::MAX]);
    assert_eq!(node_set(&vec![5, 5, 5]), vec![5]);
}

#[test]
fn generate_reads_from_the_front_of_the_bytes() {
    let setting = FuzzySetting {
        crash_restart_payload: vec![],
        restart_after_max_ms: 0,
        node: vec![],
        message_max_duplicated: 0,
        message_max_delay_ms: 1000,
        crash_ratio: Ratio::new(0),
        network_partition_ratio: Ratio::new(0),
        partition_end_after_max_ms: 0,
        message_delay_ratio: Ratio::new(200),
        message_repeat_ratio: Ratio::new(0),
        message_lost_ratio: Ratio::new(0),
    };
    let generator = EventGen::new(vec![1, 2], setting);
    let message = Message::new("m".to_string(), 1, 2);
    let mut data = vec![199];
    data.extend_from_slice(&0x0102u64.to_le_bytes());
    data.extend_from_slice(&[0, 0, 0, 42, 43]);
    let generated = generator.generate(&message, &data);
    assert_eq!(generated.events, vec![FuzzyEvent::Delay(258, message.clone())]);
    assert_eq!(generated.consumed, 12);
    assert!(generated.complete);

    let generated = generator.generate(&message, &data[..5]);
    assert_eq!(generated.events, vec![]);
    assert_eq!(generated.consumed, 1);
    assert!(!generated.complete);

    let generated = generator.generate(&message, &[200, 1]);
    assert_eq!(generated.events, vec![FuzzyEvent::Delay(0, message.clone())]);
    assert_eq!(generated.consumed, 2);
    assert!(!generated.complete);
}

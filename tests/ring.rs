use inlet::array_string::ArrayString;
use inlet::consumer::{find_consumer_slot, ClaimSlot, Consumer};
use inlet::error::InletError;
use inlet::inlet::{expected_size, has_room, publish_slot, read_slot, slot_index, Inlet};
use inlet::producer::Producer;

#[derive(Clone, Copy, Debug, PartialEq)]
struct TestEntry {
    value: u64,
    value2: u64,
}

const BLANK: TestEntry = TestEntry { value: 0, value2: 0 };

fn region(topic: &str, entry_count: usize, max_consumers: usize) -> Inlet<TestEntry> {
    Inlet::construct(
        ArrayString::from(String::from(topic)),
        std::mem::size_of::<TestEntry>(),
        entry_count,
        max_consumers,
        BLANK,
    )
}

fn entry(value: u64) -> TestEntry {
    TestEntry { value, value2: 0 }
}

#[test]
fn consumer_test_publish_entry() {
    let mut inlet = region("abc1", 8, 2);
    let mut producer = Producer::new(ArrayString::from(String::from("abc1")));
    let consumer = Consumer::new(&mut inlet, ArrayString::from(String::from("subscriber1"))).unwrap();
    assert!(!consumer.has_data_to_consume(&inlet));
    assert!(producer.publish(&mut inlet, TestEntry { value: 69420, value2: 0xDEADBEEF }));
    assert!(consumer.has_data_to_consume(&inlet));
}

#[test]
fn test_read_entry() {
    let mut inlet = region("abc2", 8, 2);
    let mut publisher = Producer::new(ArrayString::from(String::from("abc2")));
    let subscriber = Consumer::new(&mut inlet, ArrayString::from(String::from("subscriber1"))).unwrap();
    assert!(publisher.publish(&mut inlet, TestEntry { value: 69420, value2: 0xDEADBEEF }));
    let x = subscriber.process_current_entry(&mut inlet).unwrap();
    assert_eq!(x.value, 69420);
    assert_eq!(x.value2, 0xDEADBEEF);
}

#[test]
fn producer_test_publish_entry() {
    let mut inlet = region("abc", 8, 2);
    let mut publisher = Producer::new(ArrayString::from(String::from("abc")));
    for value2 in 69..77u64 {
        assert!(publisher.publish(&mut inlet, TestEntry { value: 0xDEADBEEF, value2 }));
    }
    assert_eq!(inlet.producer.sequence, 8);
    assert_eq!(inlet.data[0].value2, 69);
    assert_eq!(inlet.data[7].value2, 76);
}

#[test]
fn first_publish_is_observed() {
    let mut inlet = region("t1", 8, 2);
    let mut producer = Producer::new(ArrayString::from(String::from("t1")));
    let c1 = Consumer::new(&mut inlet, ArrayString::from(String::from("c1"))).unwrap();
    assert!(!c1.has_data_to_consume(&inlet));
    assert_eq!(c1.process_current_entry(&mut inlet), None);
    assert!(producer.publish(&mut inlet, entry(69420)));
    assert!(c1.has_data_to_consume(&inlet));
    assert_eq!(c1.process_current_entry(&mut inlet).unwrap().value, 69420);
    assert!(!c1.has_data_to_consume(&inlet));
}

#[test]
fn two_fields_round_trip() {
    let mut inlet = region("t2", 8, 2);
    let mut producer = Producer::new(ArrayString::from(String::from("t2")));
    let c1 = Consumer::new(&mut inlet, ArrayString::from(String::from("c1"))).unwrap();
    assert!(producer.publish(&mut inlet, TestEntry { value: 0x10F2C, value2: 0xDEADBEEF }));
    let got = c1.process_current_entry(&mut inlet).unwrap();
    assert_eq!(got, TestEntry { value: 0x10F2C, value2: 0xDEADBEEF });
}

#[test]
fn fill_and_wrap_in_order() {
    let mut inlet = region("t3", 8, 2);
    let mut producer = Producer::new(ArrayString::from(String::from("t3")));
    let c1 = Consumer::new(&mut inlet, ArrayString::from(String::from("c1"))).unwrap();
    for round in 0..3u64 {
        for k in 0..8u64 {
            let v = 100 * round + k;
            assert!(producer.publish(&mut inlet, entry(v)));
            assert_eq!(c1.process_current_entry(&mut inlet).unwrap().value, v);
        }
    }
    assert_eq!(inlet.producer.sequence, 24);
    assert_eq!(inlet.consumers[c1.consumer_index].sequence, 24);
}

#[test]
fn backpressure_with_slow_consumer() {
    let mut inlet = region("t4", 8, 2);
    let mut producer = Producer::new(ArrayString::from(String::from("t4")));
    let c1 = Consumer::new(&mut inlet, ArrayString::from(String::from("c1"))).unwrap();
    for v in 0..8u64 {
        assert!(producer.publish(&mut inlet, entry(v)));
    }
    assert!(!producer.publish(&mut inlet, entry(8)));
    assert_eq!(inlet.producer.sequence, 8);
    assert_eq!(c1.process_current_entry(&mut inlet).unwrap().value, 0);
    assert!(producer.publish(&mut inlet, entry(8)));
    assert!(!producer.publish(&mut inlet, entry(9)));
    assert_eq!(inlet.producer.sequence, 9);
}

#[test]
fn no_consumers_blocks_after_a_full_ring() {
    let mut inlet = region("t4b", 4, 1);
    let mut producer = Producer::new(ArrayString::from(String::from("t4b")));
    for v in 0..4u64 {
        assert!(producer.publish(&mut inlet, entry(v)));
    }
    assert_eq!(inlet.get_minimum_consumer_sequence(), 0);
    assert!(!producer.publish(&mut inlet, entry(4)));
}

#[test]
fn resume_by_id() {
    let mut inlet = region("t5", 8, 2);
    let mut producer = Producer::new(ArrayString::from(String::from("t5")));
    let first = Consumer::new(&mut inlet, ArrayString::from(String::from("c1"))).unwrap();
    for v in 1..=5u64 {
        assert!(producer.publish(&mut inlet, entry(v)));
    }
    for v in 1..=3u64 {
        assert_eq!(first.process_current_entry(&mut inlet).unwrap().value, v);
    }
    drop(first);
    let second = Consumer::new(&mut inlet, ArrayString::from(String::from("c1"))).unwrap();
    assert_eq!(second.process_current_entry(&mut inlet).unwrap().value, 4);
}

#[test]
fn reattach_gives_same_sequence() {
    let mut inlet = region("t7", 8, 2);
    let mut producer = Producer::new(ArrayString::from(String::from("t7")));
    let a = Consumer::new(&mut inlet, ArrayString::from(String::from("c1"))).unwrap();
    assert!(producer.publish(&mut inlet, entry(1)));
    assert!(a.process_current_entry(&mut inlet).is_some());
    let b = Consumer::new(&mut inlet, ArrayString::from(String::from("c1"))).unwrap();
    let c = Consumer::new(&mut inlet, ArrayString::from(String::from("c1"))).unwrap();
    assert_eq!(a.consumer_index, b.consumer_index);
    assert_eq!(b.consumer_index, c.consumer_index);
    assert_eq!(inlet.consumers[c.consumer_index].sequence, 1);
}

#[test]
fn slot_exhaustion() {
    let mut inlet = region("t6", 8, 2);
    assert!(Consumer::new(&mut inlet, ArrayString::from(String::from("c1"))).is_ok());
    assert!(Consumer::new(&mut inlet, ArrayString::from(String::from("c2"))).is_ok());
    assert!(matches!(
        Consumer::new(&mut inlet, ArrayString::from(String::from("c3"))),
        Err(InletError::NoFreeConsumerSlot)
    ));
    assert!(Consumer::new(&mut inlet, ArrayString::from(String::from("c2"))).is_ok());
}

#[test]
fn consumers_at_same_sequence_agree() {
    let mut inlet = region("t8", 8, 2);
    let mut producer = Producer::new(ArrayString::from(String::from("t8")));
    let a = Consumer::new(&mut inlet, ArrayString::from(String::from("a"))).unwrap();
    let b = Consumer::new(&mut inlet, ArrayString::from(String::from("b"))).unwrap();
    for v in 10..13u64 {
        assert!(producer.publish(&mut inlet, entry(v)));
    }
    let ra = a.process_entries(&mut inlet);
    let rb = b.process_entries(&mut inlet);
    assert_eq!(ra, rb);
    assert_eq!(ra.iter().map(|e| e.value).collect::<Vec<u64>>(), vec![10, 11, 12]);
    assert!(a.process_entries(&mut inlet).is_empty());
}

#[test]
fn ordered_delivery_in_batches() {
    let mut inlet = region("t9", 4, 1);
    let mut producer = Producer::new(ArrayString::from(String::from("t9")));
    let c = Consumer::new(&mut inlet, ArrayString::from(String::from("c"))).unwrap();
    let mut seen: Vec<u64> = Vec::new();
    let mut next: u64 = 0;
    while next < 10 {
        while producer.publish(&mut inlet, entry(next)) {
            next += 1;
        }
        for e in c.process_entries(&mut inlet) {
            seen.push(e.value);
        }
    }
    assert_eq!(seen, (0..next).collect::<Vec<u64>>());
}

#[test]
fn minimum_sequence_over_registered_consumers() {
    let mut inlet = region("t10", 8, 3);
    let mut producer = Producer::new(ArrayString::from(String::from("t10")));
    let a = Consumer::new(&mut inlet, ArrayString::from(String::from("a"))).unwrap();
    let b = Consumer::new(&mut inlet, ArrayString::from(String::from("b"))).unwrap();
    for v in 0..5u64 {
        assert!(producer.publish(&mut inlet, entry(v)));
    }
    a.process_entries(&mut inlet);
    assert!(b.process_current_entry(&mut inlet).is_some());
    assert!(b.process_current_entry(&mut inlet).is_some());
    assert_eq!(inlet.get_minimum_consumer_sequence(), 2);
}

#[test]
fn cold_start_consumer_lags_beyond_the_ring() {
    let mut inlet = region("t11", 4, 2);
    let mut producer = Producer::new(ArrayString::from(String::from("t11")));
    let a = Consumer::new(&mut inlet, ArrayString::from(String::from("a"))).unwrap();
    for v in 0..6u64 {
        assert!(producer.publish(&mut inlet, entry(v)));
        assert!(a.process_current_entry(&mut inlet).is_some());
    }
    let late = Consumer::new(&mut inlet, ArrayString::from(String::from("late"))).unwrap();
    assert_eq!(inlet.consumers[late.consumer_index].sequence, 0);
    assert!(inlet.producer.sequence - inlet.consumers[late.consumer_index].sequence > 4);
    assert!(!producer.publish(&mut inlet, entry(6)));
}

#[test]
fn layout_check() {
    let inlet = region("t12", 8, 2);
    assert!(inlet.meta.initialised);
    assert!(inlet.check_layout(16, 8, 2).is_ok());
    assert!(matches!(inlet.check_layout(8, 8, 2), Err(InletError::IncompatibleLayout)));
    assert!(matches!(inlet.check_layout(16, 4, 2), Err(InletError::IncompatibleLayout)));
    assert!(matches!(inlet.check_layout(16, 8, 3), Err(InletError::IncompatibleLayout)));
}

#[test]
fn region_size_formula() {
    assert_eq!(expected_size(16, 8, 2), Some(224 + 128 + 3 * 208 + 64));
    assert_eq!(expected_size(3, 3, 0), Some(224 + 16 + 208 + 64));
    assert_eq!(expected_size(usize::MAX, 2, 2), None);
}

#[test]
fn slot_and_room_rules() {
    assert_eq!(slot_index(0, 8), 0);
    assert_eq!(slot_index(13, 8), 5);
    assert!(has_room(7, 0, 8));
    assert!(!has_room(8, 0, 8));
    assert!(has_room(9, 2, 8));
}

#[test]
fn readiness_of_header() {
    let mut inlet = region("t13", 8, 2);
    assert_eq!(inlet.meta.ready_to_attach(16, 8, 2), Ok(true));
    assert_eq!(inlet.meta.ready_to_attach(16, 8, 1), Err(InletError::IncompatibleLayout));
    inlet.meta.initialised = false;
    assert_eq!(inlet.meta.ready_to_attach(16, 8, 1), Ok(false));
}

#[test]
fn slot_search_order() {
    let mut inlet = region("t14", 8, 3);
    let b = ArrayString::from(String::from("b"));
    assert_eq!(find_consumer_slot(&inlet.consumers, &b), Ok(ClaimSlot::Claim(0)));
    Consumer::new(&mut inlet, ArrayString::from(String::from("a"))).unwrap();
    Consumer::new(&mut inlet, b.clone()).unwrap();
    assert_eq!(find_consumer_slot(&inlet.consumers, &b), Ok(ClaimSlot::Resume(1)));
    let c = ArrayString::from(String::from("c"));
    assert_eq!(find_consumer_slot(&inlet.consumers, &c), Ok(ClaimSlot::Claim(2)));
}

#[test]
fn step_functions() {
    let mut inlet = region("t15", 4, 2);
    assert_eq!(publish_slot(3, &inlet.consumers, 4), Some(3));
    assert_eq!(publish_slot(4, &inlet.consumers, 4), None);
    let c = Consumer::new(&mut inlet, ArrayString::from(String::from("c"))).unwrap();
    assert_eq!(publish_slot(3, &inlet.consumers, 4), Some(3));
    assert_eq!(publish_slot(4, &inlet.consumers, 4), None);
    let mut producer = Producer::new(ArrayString::from(String::from("t15")));
    for v in 0..3u64 {
        assert!(producer.publish(&mut inlet, entry(v)));
        assert!(c.process_current_entry(&mut inlet).is_some());
    }
    assert_eq!(publish_slot(6, &inlet.consumers, 4), Some(2));
    assert_eq!(publish_slot(7, &inlet.consumers, 4), None);
    assert_eq!(read_slot(5, 4, 4), Some(0));
    assert_eq!(read_slot(5, 5, 4), None);
    assert_eq!(read_slot(9, 6, 4), Some(2));
}

#[test]
fn fresh_region_is_zeroed() {
    let inlet = region("t16", 8, 2);
    assert_eq!(inlet.producer.sequence, 0);
    assert_eq!(inlet.producer.timestamp, 0);
    assert!(inlet.producer.id.is_empty());
    for c in inlet.consumers.iter() {
        assert!(c.id.is_empty());
        assert_eq!(c.sequence, 0);
        assert_eq!(c.timestamp, 0);
    }
    assert_eq!(inlet.meta.topic.to_string(), "t16");
}

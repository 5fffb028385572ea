use zenoh_plugin_sequence_detector::{
    validate_publisher_id, MessageError, PublisherState, PublisherStats, SampleOutcome,
    SequenceDetector, SequenceStatus, SequencedMessage,
};

fn msg(id: &str, seq: u64) -> SequencedMessage {
    SequencedMessage {
        seq,
        publisher_id: id.to_string(),
        timestamp_ns: Some(seq.wrapping_mul(1000)),
        payload: Some(serde_json::Value::Bool(true)),
    }
}

fn handle(d: &mut SequenceDetector, m: &SequencedMessage) -> SequenceStatus {
    assert!(d.can_accept(m));
    d.handle_message(m)
}

fn stats_of(d: &SequenceDetector, id: &str) -> PublisherStats {
    let snap = d.stats_snapshot().expect("publishers tracked");
    snap.iter().find(|(k, _)| k == id).map(|(_, s)| *s).expect("publisher present")
}

#[test]
fn empty_detector_has_no_snapshot() {
    let d = SequenceDetector::new();
    assert!(d.stats_snapshot().is_none());
}

#[test]
fn first_message_per_publisher() {
    let mut d = SequenceDetector::new();
    assert_eq!(handle(&mut d, &msg("a", 7)), SequenceStatus::FirstMessage);
    assert_eq!(handle(&mut d, &msg("b", 7)), SequenceStatus::FirstMessage);
    assert_eq!(handle(&mut d, &msg("a", 8)), SequenceStatus::InSequence);
}

#[test]
fn publishers_are_tracked_independently() {
    let mut d = SequenceDetector::new();
    for s in 1..=5 {
        handle(&mut d, &msg("sensor-001", s));
    }
    handle(&mut d, &msg("sensor-002", 100));
    assert_eq!(
        handle(&mut d, &msg("sensor-002", 103)),
        SequenceStatus::Missing { expected: 101, received: 103, gap_size: 2 }
    );
    assert_eq!(
        stats_of(&d, "sensor-001"),
        PublisherStats { message_count: 5, last_seq: 5, out_of_order_count: 0, missing_count: 0 }
    );
    assert_eq!(
        stats_of(&d, "sensor-002"),
        PublisherStats { message_count: 2, last_seq: 103, out_of_order_count: 0, missing_count: 2 }
    );
}

#[test]
fn snapshot_lists_each_publisher_once() {
    let mut d = SequenceDetector::new();
    handle(&mut d, &msg("x", 1));
    handle(&mut d, &msg("y", 1));
    handle(&mut d, &msg("x", 2));
    handle(&mut d, &msg("x", 2));
    let snap = d.stats_snapshot().unwrap();
    assert_eq!(snap.len(), 2);
    assert_eq!(snap.iter().filter(|(k, _)| k == "x").count(), 1);
    assert_eq!(
        stats_of(&d, "x"),
        PublisherStats { message_count: 3, last_seq: 2, out_of_order_count: 1, missing_count: 0 }
    );
}

#[test]
fn message_without_optional_fields() {
    let mut d = SequenceDetector::new();
    let m = SequencedMessage {
        seq: 1,
        publisher_id: "sensor-001".to_string(),
        timestamp_ns: None,
        payload: None,
    };
    assert_eq!(handle(&mut d, &m), SequenceStatus::FirstMessage);
    assert_eq!(handle(&mut d, &m), SequenceStatus::Duplicate);
}

#[test]
fn overflow_is_detected_before_handling() {
    let mut d = SequenceDetector::new();
    handle(&mut d, &msg("p", 0));
    handle(&mut d, &msg("p", u64::MAX));
    assert_eq!(
        handle(&mut d, &msg("p", 0)),
        SequenceStatus::Missing { expected: 0, received: 0, gap_size: 0 }
    );
    // a second gap as wide would overflow the missing count of "p" only
    assert!(!d.can_accept(&msg("p", u64::MAX)));
    assert!(d.can_accept(&msg("q", u64::MAX)));
    assert!(d.can_accept(&msg("p", 2)));
    assert!(!d.can_accept(&msg("p", 3)));
}

#[test]
fn record_from_binary_fields() {
    let mut d = SequenceDetector::new();
    let id = "bin-1".to_string();
    assert!(d.can_record(&id, 10));
    assert_eq!(d.record(&id, 10, None), SequenceStatus::FirstMessage);
    assert_eq!(
        d.record(&id, 8, Some(5)),
        SequenceStatus::OutOfOrder { expected: 11, received: 8 }
    );
    // the JSON and binary forms of a publisher feed the same state
    assert_eq!(handle(&mut d, &msg("bin-1", 11)), SequenceStatus::InSequence);
    assert_eq!(
        stats_of(&d, "bin-1"),
        PublisherStats { message_count: 3, last_seq: 11, out_of_order_count: 1, missing_count: 0 }
    );
}

#[test]
fn publisher_id_is_required() {
    assert_eq!(validate_publisher_id(&String::new()), Err(MessageError::EmptyPublisherId));
    assert_eq!(validate_publisher_id(&"sensor-001".to_string()), Ok(()));
}

#[test]
fn interleaved_publishers_replay_their_own_streams() {
    let stream = [("a", 1), ("b", 10), ("a", 2), ("b", 12), ("a", 2), ("c", 5), ("b", 11)];
    let mut d = SequenceDetector::new();
    for (id, seq) in stream.iter() {
        handle(&mut d, &msg(id, *seq));
    }
    let snap = d.stats_snapshot().unwrap();
    assert_eq!(snap.len(), 3);
    for id in ["a", "b", "c"] {
        let mut own = PublisherState::new();
        for (i, seq) in stream.iter() {
            if *i == id {
                own.process_sequence(*seq, None);
            }
        }
        assert_eq!(stats_of(&d, id), own.get_stats());
    }
}

#[test]
fn sample_prefers_json_then_binary() {
    let mut d = SequenceDetector::new();
    let json = msg("j", 4);
    // the JSON message wins over whatever the payload bytes hold
    assert_eq!(
        d.handle_sample(Some(&json), &[0x08, 0x09]),
        SampleOutcome::Recorded {
            publisher_id: "j".to_string(),
            seq: 4,
            status: SequenceStatus::FirstMessage
        }
    );
    // without JSON, the binary form is used
    let mut bin = vec![0x08, 0x07, 0x12, 0x01];
    bin.push(b'b');
    assert_eq!(
        d.handle_sample(None, &bin),
        SampleOutcome::Recorded {
            publisher_id: "b".to_string(),
            seq: 7,
            status: SequenceStatus::FirstMessage
        }
    );
    assert_eq!(d.stats_snapshot().unwrap().len(), 2);
}

#[test]
fn unusable_samples_change_nothing() {
    let mut d = SequenceDetector::new();
    assert_eq!(d.handle_sample(None, b"hello"), SampleOutcome::Undecodable);
    // an empty payload decodes to a message without a publisher
    assert_eq!(d.handle_sample(None, &[]), SampleOutcome::MissingPublisherId);
    let nameless = SequencedMessage {
        seq: 1,
        publisher_id: String::new(),
        timestamp_ns: None,
        payload: None,
    };
    assert_eq!(d.handle_sample(Some(&nameless), &[]), SampleOutcome::MissingPublisherId);
    assert!(d.stats_snapshot().is_none());

    handle(&mut d, &msg("p", 0));
    handle(&mut d, &msg("p", u64::MAX));
    handle(&mut d, &msg("p", 0));
    assert_eq!(d.handle_sample(Some(&msg("p", u64::MAX)), &[]), SampleOutcome::CounterOverflow);
    assert_eq!(stats_of(&d, "p").message_count, 3);
}

use zenoh_plugin_sequence_detector::{PublisherState, PublisherStats, SequenceStatus, Severity};

fn feed(state: &mut PublisherState, seqs: &[u64]) -> Vec<SequenceStatus> {
    let mut out = Vec::new();
    for &s in seqs {
        assert!(state.can_process(s));
        out.push(state.process_sequence(s, None));
    }
    out
}

#[test]
fn new_state_is_empty() {
    let s = PublisherState::new();
    assert_eq!(
        s.get_stats(),
        PublisherStats { message_count: 0, last_seq: 0, out_of_order_count: 0, missing_count: 0 }
    );
    assert_eq!(s.last_timestamp_ns, None);
}

#[test]
fn first_message_sets_baseline() {
    let mut s = PublisherState::new();
    assert_eq!(s.process_sequence(42, Some(7)), SequenceStatus::FirstMessage);
    assert_eq!(s.last_seq, 42);
    assert_eq!(s.message_count, 1);
    assert_eq!(s.last_timestamp_ns, Some(7));
}

#[test]
fn documented_log_example() {
    // The stream behind the plugin's example log output.
    let mut s = PublisherState::new();
    let statuses = feed(&mut s, &[1, 2, 3, 4, 3, 5, 10, 10]);
    assert_eq!(
        statuses,
        vec![
            SequenceStatus::FirstMessage,
            SequenceStatus::InSequence,
            SequenceStatus::InSequence,
            SequenceStatus::InSequence,
            SequenceStatus::OutOfOrder { expected: 5, received: 3 },
            SequenceStatus::InSequence,
            SequenceStatus::Missing { expected: 6, received: 10, gap_size: 4 },
            SequenceStatus::Duplicate,
        ]
    );
    assert_eq!(
        s.get_stats(),
        PublisherStats { message_count: 8, last_seq: 10, out_of_order_count: 2, missing_count: 4 }
    );
}

#[test]
fn in_order_stream_has_no_anomaly() {
    let mut s = PublisherState::new();
    let statuses = feed(&mut s, &[100, 101, 102, 103, 104]);
    assert_eq!(statuses[0], SequenceStatus::FirstMessage);
    assert!(statuses[1..].iter().all(|st| *st == SequenceStatus::InSequence));
    assert_eq!(
        s.get_stats(),
        PublisherStats { message_count: 5, last_seq: 104, out_of_order_count: 0, missing_count: 0 }
    );
}

#[test]
fn last_seq_is_highest_received() {
    let mut s = PublisherState::new();
    feed(&mut s, &[5, 9, 2, 7, 8]);
    assert_eq!(s.last_seq, 9);
    assert_eq!(s.message_count, 5);
}

#[test]
fn gaps_add_up() {
    // missing + advancing messages == highest - first
    let mut s = PublisherState::new();
    feed(&mut s, &[3, 6, 4, 12, 13, 11, 20]);
    let st = s.get_stats();
    let advancing = st.message_count - 1 - st.out_of_order_count;
    assert_eq!(st.missing_count + advancing, st.last_seq - 3);
    assert_eq!(st.missing_count, 2 + 5 + 6);
    assert_eq!(st.out_of_order_count, 2);
}

#[test]
fn late_messages_are_counted() {
    let mut s = PublisherState::new();
    feed(&mut s, &[10, 4, 10, 11, 3]);
    assert_eq!(s.out_of_order_count, 3);
}

#[test]
fn duplicate_keeps_timestamp() {
    let mut s = PublisherState::new();
    s.process_sequence(1, Some(100));
    s.process_sequence(2, Some(200));
    assert_eq!(s.process_sequence(2, Some(300)), SequenceStatus::Duplicate);
    assert_eq!(s.last_timestamp_ns, Some(200));
    assert_eq!(s.last_seq, 2);
    assert_eq!(s.message_count, 3);
    assert_eq!(s.out_of_order_count, 1);
}

#[test]
fn out_of_order_updates_timestamp_but_not_last_seq() {
    let mut s = PublisherState::new();
    s.process_sequence(5, Some(1));
    assert_eq!(
        s.process_sequence(2, Some(2)),
        SequenceStatus::OutOfOrder { expected: 6, received: 2 }
    );
    assert_eq!(s.last_seq, 5);
    assert_eq!(s.last_timestamp_ns, Some(2));
}

#[test]
fn missing_counts_gap() {
    let mut s = PublisherState::new();
    s.process_sequence(0, None);
    assert_eq!(
        s.process_sequence(u64::MAX - 1, None),
        SequenceStatus::Missing { expected: 1, received: u64::MAX - 1, gap_size: u64::MAX - 2 }
    );
    assert_eq!(s.missing_count, u64::MAX - 2);
}

#[test]
fn overflowing_inputs_are_refused() {
    let mut s = PublisherState::new();
    s.process_sequence(0, None);
    s.process_sequence(u64::MAX, None);
    s.process_sequence(0, None);
    // after the wrap, a second gap of u64::MAX - 1 would push the missing count past u64::MAX
    assert_eq!(s.missing_count, u64::MAX - 1);
    assert!(!s.can_process(u64::MAX));
    assert!(s.can_process(2));
    assert!(!s.can_process(3));

    let mut t = PublisherState::new();
    t.process_sequence(0, None);
    t.process_sequence(10, None);
    t.missing_count = u64::MAX - 5;
    // a gap of 2 still fits, a gap of 9 would push the missing count past u64::MAX
    assert!(t.can_process(13));
    assert!(!t.can_process(20));
    // a late message needs room in the out-of-order count
    t.out_of_order_count = u64::MAX;
    assert!(!t.can_process(3));
    assert!(t.can_process(11));

    let full = PublisherState {
        last_seq: 0,
        message_count: u64::MAX,
        out_of_order_count: 0,
        missing_count: 0,
        last_timestamp_ns: None,
    };
    assert!(!full.can_process(1));
    assert!(PublisherState::new().can_process(u64::MAX));
}

#[test]
fn severity_of_each_status() {
    assert_eq!(SequenceStatus::FirstMessage.severity(), Severity::Info);
    assert_eq!(SequenceStatus::InSequence.severity(), Severity::Debug);
    assert_eq!(SequenceStatus::Duplicate.severity(), Severity::Warn);
    assert_eq!(
        SequenceStatus::OutOfOrder { expected: 3, received: 1 }.severity(),
        Severity::Warn
    );
    assert_eq!(
        SequenceStatus::Missing { expected: 3, received: 5, gap_size: 2 }.severity(),
        Severity::Error
    );
}

#[test]
fn repeated_highest_value_is_duplicate() {
    let mut s = PublisherState::new();
    s.process_sequence(u64::MAX, Some(1));
    assert!(s.can_process(u64::MAX));
    assert_eq!(s.process_sequence(u64::MAX, Some(2)), SequenceStatus::Duplicate);
    assert_eq!(s.last_timestamp_ns, Some(1));
    assert_eq!(s.out_of_order_count, 1);
}

#[test]
fn wrap_to_zero_is_reported_missing() {
    let mut s = PublisherState::new();
    s.process_sequence(u64::MAX - 1, None);
    s.process_sequence(u64::MAX, None);
    assert!(s.can_process(0));
    assert_eq!(
        s.process_sequence(0, Some(9)),
        SequenceStatus::Missing { expected: 0, received: 0, gap_size: 0 }
    );
    assert_eq!(s.last_seq, 0);
    assert_eq!(s.message_count, 3);
    assert_eq!(s.last_timestamp_ns, Some(9));
    assert_eq!(s.process_sequence(1, None), SequenceStatus::InSequence);
}

#[test]
fn late_arrival_after_highest_value_is_out_of_order() {
    let mut s = PublisherState::new();
    s.process_sequence(u64::MAX - 1, None);
    s.process_sequence(u64::MAX, None);
    assert_eq!(
        s.process_sequence(u64::MAX - 2, Some(4)),
        SequenceStatus::OutOfOrder { expected: 0, received: u64::MAX - 2 }
    );
    assert_eq!(s.missing_count, 0);
    assert_eq!(s.out_of_order_count, 1);
    assert_eq!(s.last_seq, u64::MAX);
    assert_eq!(s.last_timestamp_ns, Some(4));
}

#[test]
fn late_arrival_of_zero_before_the_top_is_out_of_order() {
    let mut s = PublisherState::new();
    s.process_sequence(5, None);
    assert_eq!(
        s.process_sequence(0, None),
        SequenceStatus::OutOfOrder { expected: 6, received: 0 }
    );
}

//! What the operations of the library are for, stated over all inputs in
//! terms of the inputs and results themselves.
use vstd::prelude::*;
use crate::config::{
    config_change, interval_entry_ok, interval_value, key_entry_ok, selector_entry_ok,
    selector_error, selector_value, stats_key_error, stats_key_value, zenoh_accepts_key_expr, ConfigCheck, ConfigError, ConfigValue,
};
use crate::detector::{sample_fields, SequencedMessage};
use crate::history::{lemma_every_message_counted, replay, replayable};
use crate::proto::decode;
use crate::publisher::{
    initial_state, PublisherState, PublisherStats, SequenceStatus, Severity,
};

verus! {

/// The first message from a publisher is always reported as such, whatever
/// its sequence number, and becomes the baseline: the count is one, the
/// last sequence number is the one received.
pub proof fn law_first_message_sets_baseline(seq: u64, ts: Option<u64>)
    ensures
        initial_state().status_for(seq) == SequenceStatus::FirstMessage,
        initial_state().next_state(seq, ts).message_count == 1,
        initial_state().next_state(seq, ts).last_seq == seq,
        initial_state().next_state(seq, ts).out_of_order_count == 0,
        initial_state().next_state(seq, ts).missing_count == 0,
        initial_state().next_state(seq, ts).last_timestamp_ns == ts,
{
}

/// How every sequence number is classified once a publisher has sent a
/// message, with `last` the last sequence number recorded:
/// - `last` again is a duplicate;
/// - `last + 1` is in sequence, and nothing else is;
/// - a number below `last` is out of order, `last + 1` being expected
///   (0 after `u64::MAX`), except 0 right after `u64::MAX`;
/// - 0 right after `u64::MAX` (the wrap-around) is missing messages with
///   0 expected, 0 received and no gap;
/// - a number above `last + 1` is missing messages, `last + 1` being
///   expected and the numbers in between the gap.
pub proof fn law_classification(s: PublisherState, seq: u64)
    requires
        s.message_count > 0,
    ensures
        seq == s.last_seq ==> s.status_for(seq) == SequenceStatus::Duplicate,
        seq == s.last_seq + 1 ==> s.status_for(seq) == SequenceStatus::InSequence,
        s.status_for(seq) == SequenceStatus::InSequence ==> seq == s.last_seq + 1,
        seq < s.last_seq && !(s.last_seq == u64::MAX && seq == 0) ==> s.status_for(seq) == (
        SequenceStatus::OutOfOrder {
            expected: if s.last_seq == u64::MAX {
                0
            } else {
                (s.last_seq + 1) as u64
            },
            received: seq,
        }),
        s.last_seq == u64::MAX && seq == 0 ==> s.status_for(seq) == (SequenceStatus::Missing {
            expected: 0,
            received: 0,
            gap_size: 0,
        }),
        seq > s.last_seq + 1 ==> s.status_for(seq) == (SequenceStatus::Missing {
            expected: (s.last_seq + 1) as u64,
            received: seq,
            gap_size: (seq - s.last_seq - 1) as u64,
        }),
        s.status_for(seq) != SequenceStatus::FirstMessage,
{
}

/// How the counters move on each message after the first, as whole
/// numbers: the message count grows by one; the missing count grows by the
/// gap when the number skips ahead; the out-of-order count grows by one for
/// a duplicate or late message (not for the wrap-around to 0); the last
/// sequence number becomes the received one when it is higher, or 0 on the
/// wrap-around, and otherwise stays; the timestamp is kept only on a duplicate.
pub proof fn law_counters(s: PublisherState, seq: u64, ts: Option<u64>)
    requires
        s.message_count > 0,
        s.processes_without_overflow(seq),
    ensures
        s.next_state(seq, ts).message_count == s.message_count + 1,
        s.next_state(seq, ts).missing_count == s.missing_count + if seq > s.last_seq + 1 {
            seq - s.last_seq - 1
        } else {
            0
        },
        s.next_state(seq, ts).out_of_order_count == s.out_of_order_count + if seq <= s.last_seq
            && !(s.last_seq == u64::MAX && seq == 0) {
            1int
        } else {
            0int
        },
        s.next_state(seq, ts).last_seq == if s.last_seq == u64::MAX && seq == 0 {
            0
        } else if seq > s.last_seq {
            seq
        } else {
            s.last_seq
        },
        s.next_state(seq, ts).last_timestamp_ns == if seq == s.last_seq {
            s.last_timestamp_ns
        } else {
            ts
        },
{
}

/// Nothing is refused unless a counter would exceed `u64::MAX`: when the
/// message count, the out-of-order count and the missing count plus the
/// received number all stay within `u64`, the message is processed.
pub proof fn law_only_overflow_is_refused(s: PublisherState, seq: u64)
    requires
        s.message_count < u64::MAX,
        s.out_of_order_count < u64::MAX,
        s.missing_count + seq <= u64::MAX,
    ensures
        s.processes_without_overflow(seq),
{
}

/// The statistics of a publisher are its counters, unchanged; a publisher
/// that has sent nothing reports all zero, and after a stream of `n`
/// messages the reported count is `n`.
pub proof fn law_stats_are_the_counters(s: PublisherState, msgs: Seq<(u64, Option<u64>)>)
    requires
        replayable(msgs),
    ensures
        s.spec_stats().message_count == s.message_count,
        s.spec_stats().last_seq == s.last_seq,
        s.spec_stats().out_of_order_count == s.out_of_order_count,
        s.spec_stats().missing_count == s.missing_count,
        initial_state().spec_stats() == (PublisherStats {
            message_count: 0,
            last_seq: 0,
            out_of_order_count: 0,
            missing_count: 0,
        }),
        replay(msgs).spec_stats().message_count == msgs.len(),
{
    lemma_every_message_counted(msgs);
}

/// Every outcome has its log level: a first message is informational, a
/// message in sequence a debug trace, a duplicate or late message a warning,
/// and missing messages an error whatever the gap.
pub proof fn law_severity(expected: u64, received: u64, gap_size: u64)
    ensures
        SequenceStatus::FirstMessage.spec_severity() == Severity::Info,
        SequenceStatus::InSequence.spec_severity() == Severity::Debug,
        SequenceStatus::Duplicate.spec_severity() == Severity::Warn,
        (SequenceStatus::OutOfOrder { expected, received }).spec_severity() == Severity::Warn,
        (SequenceStatus::Missing { expected, received, gap_size }).spec_severity()
            == Severity::Error,
{
}

/// What the configuration reads: the selector must be a string zenoh
/// accepts and is taken as written; the statistics interval is the number
/// given when it fits in `u64` and 60 when it is absent or does not fit,
/// any other type being refused; the statistics key is optional and, when
/// given, a string zenoh accepts taken as written.
pub proof fn law_config_values(n: u64, s: String)
    ensures
        selector_entry_ok(ConfigValue::Text(s)) == zenoh_accepts_key_expr(s@),
        !selector_entry_ok(ConfigValue::Absent),
        !selector_entry_ok(ConfigValue::Number(Some(n))),
        !selector_entry_ok(ConfigValue::Other),
        selector_value(ConfigValue::Text(s)) == s@,
        interval_entry_ok(ConfigValue::Number(Some(n))),
        interval_entry_ok(ConfigValue::Number(None)),
        interval_entry_ok(ConfigValue::Absent),
        !interval_entry_ok(ConfigValue::Text(s)),
        !interval_entry_ok(ConfigValue::Other),
        interval_value(ConfigValue::Number(Some(n))) == n,
        interval_value(ConfigValue::Number(None)) == 60,
        interval_value(ConfigValue::Absent) == 60,
        key_entry_ok(ConfigValue::Absent),
        key_entry_ok(ConfigValue::Text(s)) == zenoh_accepts_key_expr(s@),
        !key_entry_ok(ConfigValue::Number(Some(n))),
        !key_entry_ok(ConfigValue::Other),
        stats_key_value(ConfigValue::Text(s)) == Some(s@),
        stats_key_value(ConfigValue::Absent) == None::<Seq<char>>,
{
}

/// Which error refuses a configuration: a missing selector is
/// `SelectorMissing`, a selector of another type than string
/// `SelectorNotString`, a selector string zenoh refuses `InvalidSelector`;
/// a statistics key of another type than string is `StatsKeyNotString`, and
/// one zenoh refuses `InvalidStatsKey`.
pub proof fn law_config_errors(s: String, n: Option<u64>, e: ConfigError)
    ensures
        selector_error(ConfigValue::Absent, e) <==> e == ConfigError::SelectorMissing,
        selector_error(ConfigValue::Number(n), e) <==> e == ConfigError::SelectorNotString,
        selector_error(ConfigValue::Other, e) <==> e == ConfigError::SelectorNotString,
        selector_error(ConfigValue::Text(s), e) ==> e is InvalidSelector,
        stats_key_error(ConfigValue::Number(n), e) <==> e == ConfigError::StatsKeyNotString,
        stats_key_error(ConfigValue::Other, e) <==> e == ConfigError::StatsKeyNotString,
        stats_key_error(ConfigValue::Text(s), e) ==> e is InvalidStatsKey,
{
}

/// How a configuration change is judged at the path "selector" or at the
/// whole configuration (""): the same selector string changes nothing, a
/// different string (or one where there was none) requires a restart, a
/// removed selector changes nothing, and a selector of any other JSON type
/// is refused; a change at any other path changes nothing.
pub proof fn law_config_change(path: Seq<char>, old: ConfigValue, new: ConfigValue)
    ensures
        (path == "selector"@ || path.len() == 0) ==> {
            &&& (new matches ConfigValue::Text(ns) && old matches ConfigValue::Text(os) && os@
                == ns@) ==> config_change(path, old, new) == Ok::<ConfigCheck, ConfigError>(
                ConfigCheck::Unchanged,
            )
            &&& (new matches ConfigValue::Text(ns) && !(old matches ConfigValue::Text(os) && os@
                == ns@)) ==> config_change(path, old, new) == Ok::<ConfigCheck, ConfigError>(
                ConfigCheck::RestartRequired,
            )
            &&& new is Absent ==> config_change(path, old, new) == Ok::<
                ConfigCheck,
                ConfigError,
            >(ConfigCheck::Unchanged)
            &&& (new is Number || new is Other) ==> config_change(path, old, new) == Err::<
                ConfigCheck,
                ConfigError,
            >(ConfigError::SelectorNotString)
        },
        !(path == "selector"@ || path.len() == 0) ==> config_change(path, old, new) == Ok::<
            ConfigCheck,
            ConfigError,
        >(ConfigCheck::Unchanged),
{
    assert(crate::config::SELECTOR_KEY@ == "selector"@);
}

/// Which message a sample carries: its JSON message whenever that parsed,
/// whatever the payload bytes hold; otherwise the binary form of the
/// payload when it decodes; otherwise none.
pub proof fn law_sample_prefers_json(json: Option<&SequencedMessage>, payload: Seq<u8>)
    ensures
        json matches Some(m) ==> sample_fields(json, payload) == Some(
            (m.publisher_id@, m.seq, m.timestamp_ns),
        ),
        json is None && decode(payload) is Some ==> sample_fields(json, payload) == Some(
            (
                decode(payload).unwrap().publisher_id,
                decode(payload).unwrap().seq,
                decode(payload).unwrap().timestamp_ns,
            ),
        ),
        json is None && decode(payload) is None ==> sample_fields(json, payload) is None,
{
}

} // verus!

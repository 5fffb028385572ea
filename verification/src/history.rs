//! What the counters of a publisher say about the whole stream of messages
//! received from it.
use vstd::prelude::*;
use crate::publisher::{initial_state, PublisherState, SequenceStatus};

verus! {

/// The state reached by processing `msgs` (sequence number, timestamp), in
/// order, starting from a publisher that has sent nothing.
pub open spec fn replay(msgs: Seq<(u64, Option<u64>)>) -> PublisherState
    decreases msgs.len(),
{
    if msgs.len() == 0 {
        initial_state()
    } else {
        replay(msgs.drop_last()).next_state(msgs.last().0, msgs.last().1)
    }
}

/// Every message of `msgs` can be processed, in order, without a counter overflowing.
pub open spec fn replayable(msgs: Seq<(u64, Option<u64>)>) -> bool {
    forall|i: int|
        0 <= i < msgs.len() ==> #[trigger] replay(msgs.take(i)).processes_without_overflow(
            msgs[i].0,
        )
}

/// No message of `msgs` is the wrap-around to 0 right after `u64::MAX`,
/// which starts a new cycle.
pub open spec fn wrap_free(msgs: Seq<(u64, Option<u64>)>) -> bool {
    forall|i: int|
        0 <= i < msgs.len() ==> !#[trigger] replay(msgs.take(i)).is_wrap(msgs[i].0)
}

proof fn lemma_wrap_free_prefix(msgs: Seq<(u64, Option<u64>)>)
    requires
        msgs.len() > 0,
        wrap_free(msgs),
    ensures
        wrap_free(msgs.drop_last()),
        !replay(msgs.drop_last()).is_wrap(msgs.last().0),
{
    let p = msgs.drop_last();
    assert forall|i: int| 0 <= i < p.len() implies !#[trigger] replay(p.take(i)).is_wrap(p[i].0) by {
        assert(p.take(i) =~= msgs.take(i));
        assert(!replay(msgs.take(i)).is_wrap(msgs[i].0));
    }
    assert(msgs.take(msgs.len() - 1) =~= p);
    assert(!replay(msgs.take(msgs.len() - 1)).is_wrap(msgs[msgs.len() - 1].0));
}

/// The highest sequence number in a non-empty stream.
pub open spec fn max_seq(msgs: Seq<(u64, Option<u64>)>) -> u64
    decreases msgs.len(),
{
    if msgs.len() <= 1 {
        msgs[0].0
    } else {
        let m = max_seq(msgs.drop_last());
        if msgs.last().0 > m {
            msgs.last().0
        } else {
            m
        }
    }
}

/// The number of messages after the first that do not exceed the highest
/// sequence number received before them.
pub open spec fn late_count(msgs: Seq<(u64, Option<u64>)>) -> nat
    decreases msgs.len(),
{
    if msgs.len() <= 1 {
        0
    } else {
        late_count(msgs.drop_last()) + if msgs.last().0 <= max_seq(msgs.drop_last()) {
            1nat
        } else {
            0nat
        }
    }
}

proof fn lemma_replayable_prefix(msgs: Seq<(u64, Option<u64>)>)
    requires
        msgs.len() > 0,
        replayable(msgs),
    ensures
        replayable(msgs.drop_last()),
        replay(msgs.drop_last()).processes_without_overflow(msgs.last().0),
{
    let p = msgs.drop_last();
    assert forall|i: int| 0 <= i < p.len() implies #[trigger] replay(
        p.take(i),
    ).processes_without_overflow(p[i].0) by {
        assert(p.take(i) =~= msgs.take(i));
        assert(replay(msgs.take(i)).processes_without_overflow(msgs[i].0));
    }
    assert(msgs.take(msgs.len() - 1) =~= p);
    assert(replay(msgs.take(msgs.len() - 1)).processes_without_overflow(msgs[msgs.len() - 1].0));
}

/// Processing one more message extends the history: the state after `msgs`
/// followed by `(seq, ts)` is the state after `msgs` advanced by that
/// message, and the longer history stays replayable when the message fits.
pub proof fn lemma_replay_push(msgs: Seq<(u64, Option<u64>)>, seq: u64, ts: Option<u64>)
    ensures
        replay(msgs.push((seq, ts))) == replay(msgs).next_state(seq, ts),
        replayable(msgs) && replay(msgs).processes_without_overflow(seq) ==> replayable(
            msgs.push((seq, ts)),
        ),
{
    let m = msgs.push((seq, ts));
    assert(m.drop_last() =~= msgs);
    if replayable(msgs) && replay(msgs).processes_without_overflow(seq) {
        assert forall|i: int| 0 <= i < m.len() implies #[trigger] replay(
            m.take(i),
        ).processes_without_overflow(m[i].0) by {
            if i < msgs.len() {
                assert(m.take(i) =~= msgs.take(i));
                assert(replay(msgs.take(i)).processes_without_overflow(msgs[i].0));
            } else {
                assert(m.take(i) =~= msgs);
            }
        }
    }
}

/// Every message is counted: after a stream of `n` messages the message
/// count is `n`, and none but the first of them is reported as a first message.
pub proof fn lemma_every_message_counted(msgs: Seq<(u64, Option<u64>)>)
    requires
        replayable(msgs),
    ensures
        replay(msgs).message_count == msgs.len(),
        forall|i: int|
            1 <= i < msgs.len() ==> #[trigger] replay(msgs.take(i)).status_for(msgs[i].0)
                != SequenceStatus::FirstMessage,
    decreases msgs.len(),
{
    if msgs.len() > 0 {
        lemma_replayable_prefix(msgs);
        lemma_every_message_counted(msgs.drop_last());
        assert forall|i: int| 1 <= i < msgs.len() implies #[trigger] replay(
            msgs.take(i),
        ).status_for(msgs[i].0) != SequenceStatus::FirstMessage by {
            if i < msgs.len() - 1 {
                assert(msgs.take(i) =~= msgs.drop_last().take(i));
                assert(msgs[i] == msgs.drop_last()[i]);
            } else {
                assert(msgs.take(i) =~= msgs.drop_last());
            }
        }
    }
}

/// The last sequence number reported is the highest one ever received, as
/// long as the sequence has not wrapped around.
pub proof fn lemma_last_seq_is_max(msgs: Seq<(u64, Option<u64>)>)
    requires
        msgs.len() > 0,
        replayable(msgs),
        wrap_free(msgs),
    ensures
        replay(msgs).last_seq == max_seq(msgs),
    decreases msgs.len(),
{
    lemma_replayable_prefix(msgs);
    lemma_wrap_free_prefix(msgs);
    lemma_every_message_counted(msgs.drop_last());
    if msgs.len() > 1 {
        lemma_last_seq_is_max(msgs.drop_last());
    }
}

/// A publisher that follows the rules (each message one past the previous)
/// causes no anomaly: nothing missing, nothing out of order, and the last
/// sequence number is the first plus the number of messages minus one.
pub proof fn lemma_in_order_stream_has_no_anomaly(msgs: Seq<(u64, Option<u64>)>)
    requires
        msgs.len() > 0,
        replayable(msgs),
        forall|i: int| 0 <= i < msgs.len() ==> #[trigger] msgs[i].0 == msgs[0].0 + i,
    ensures
        replay(msgs).missing_count == 0,
        replay(msgs).out_of_order_count == 0,
        replay(msgs).last_seq == msgs[0].0 + msgs.len() - 1,
        forall|i: int|
            1 <= i < msgs.len() ==> #[trigger] replay(msgs.take(i)).status_for(msgs[i].0)
                == SequenceStatus::InSequence,
    decreases msgs.len(),
{
    lemma_replayable_prefix(msgs);
    lemma_every_message_counted(msgs.drop_last());
    let p = msgs.drop_last();
    if msgs.len() > 1 {
        assert forall|i: int| 0 <= i < p.len() implies #[trigger] p[i].0 == p[0].0 + i by {
            assert(p[i] == msgs[i]);
        }
        lemma_in_order_stream_has_no_anomaly(p);
        assert(msgs[msgs.len() - 1].0 == msgs[0].0 + msgs.len() - 1);
    }
    assert forall|i: int| 1 <= i < msgs.len() implies #[trigger] replay(msgs.take(i)).status_for(
        msgs[i].0,
    ) == SequenceStatus::InSequence by {
        if i < msgs.len() - 1 {
            assert(msgs.take(i) =~= p.take(i));
            assert(msgs[i] == p[i]);
        } else {
            assert(msgs.take(i) =~= p);
            assert(msgs[i].0 == msgs[0].0 + i);
        }
    }
}

/// The gaps add up: in a non-empty stream, the missing count plus the
/// number of messages that advanced the sequence equals the distance from
/// the first sequence number to the highest one (while the sequence has not
/// wrapped around).
pub proof fn lemma_missing_count_telescopes(msgs: Seq<(u64, Option<u64>)>)
    requires
        msgs.len() > 0,
        replayable(msgs),
        wrap_free(msgs),
    ensures
        replay(msgs).missing_count + (msgs.len() - 1 - replay(msgs).out_of_order_count) == replay(
            msgs,
        ).last_seq - msgs[0].0,
    decreases msgs.len(),
{
    lemma_replayable_prefix(msgs);
    lemma_wrap_free_prefix(msgs);
    lemma_every_message_counted(msgs.drop_last());
    if msgs.len() > 1 {
        lemma_missing_count_telescopes(msgs.drop_last());
        assert(msgs.drop_last()[0] == msgs[0]);
    }
}

/// The out-of-order count is the number of late messages: those after the
/// first whose sequence number does not exceed every one received before
/// (while the sequence has not wrapped around).
pub proof fn lemma_out_of_order_counts_late_messages(msgs: Seq<(u64, Option<u64>)>)
    requires
        replayable(msgs),
        wrap_free(msgs),
    ensures
        replay(msgs).out_of_order_count == late_count(msgs),
    decreases msgs.len(),
{
    if msgs.len() > 0 {
        lemma_replayable_prefix(msgs);
        lemma_wrap_free_prefix(msgs);
        lemma_every_message_counted(msgs.drop_last());
        lemma_out_of_order_counts_late_messages(msgs.drop_last());
        if msgs.len() > 1 {
            lemma_last_seq_is_max(msgs.drop_last());
        }
    }
}

/// Sending the newest message again is a duplicate: it changes nothing but
/// the message and out-of-order counts.
pub proof fn lemma_resend_is_duplicate(s: PublisherState, seq: u64, ts: Option<u64>, ts2: Option<u64>)
    requires
        s.processes_without_overflow(seq),
        s.message_count == 0 || seq >= s.last_seq,
        s.next_state(seq, ts).processes_without_overflow(seq),
    ensures
        s.next_state(seq, ts).status_for(seq) == SequenceStatus::Duplicate,
        s.next_state(seq, ts).next_state(seq, ts2) == (PublisherState {
            message_count: (s.next_state(seq, ts).message_count + 1) as u64,
            out_of_order_count: (s.next_state(seq, ts).out_of_order_count + 1) as u64,
            ..s.next_state(seq, ts)
        }),
{
}

/// The wrap-around after the highest sequence number: a message numbered 0
/// after `u64::MAX` is reported as missing messages (0 expected, 0 received,
/// no gap), and counting goes on from 0 in sequence.
pub proof fn lemma_wrap_to_zero_continues(s: PublisherState, ts: Option<u64>)
    requires
        s.message_count > 0,
        s.last_seq == u64::MAX,
        s.processes_without_overflow(0),
    ensures
        s.status_for(0) == (SequenceStatus::Missing { expected: 0, received: 0, gap_size: 0 }),
        s.next_state(0, ts).last_seq == 0,
        s.next_state(0, ts).message_count == s.message_count + 1,
        s.next_state(0, ts).status_for(1) == SequenceStatus::InSequence,
{
}

} // verus!

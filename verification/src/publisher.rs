//! Sequence tracking for a single publisher: the classification of each
//! incoming sequence number and the counters kept about the stream.
use vstd::prelude::*;

verus! {

/// Outcome of checking one sequence number against the state of its publisher.
#[derive(Debug, Clone, Copy, PartialEq, Eq, Structural)]
pub enum SequenceStatus {
    /// The first message ever seen from this publisher; it sets the baseline.
    FirstMessage,
    /// The sequence number is exactly one past the last one seen.
    InSequence,
    /// The sequence number equals the last one seen.
    Duplicate,
    /// The sequence number is below the last one seen (late arrival).
    OutOfOrder { expected: u64, received: u64 },
    /// The sequence number skips ahead; `gap_size` numbers were never seen.
    Missing { expected: u64, received: u64, gap_size: u64 },
}

/// How loudly an outcome is reported.
#[derive(Debug, Clone, Copy, PartialEq, Eq, Structural)]
pub enum Severity {
    Debug,
    Info,
    Warn,
    Error,
}

/// Snapshot of the counters of one publisher.
#[derive(Debug, Clone, Copy, PartialEq, Eq, Structural)]
pub struct PublisherStats {
    pub message_count: u64,
    pub last_seq: u64,
    pub out_of_order_count: u64,
    pub missing_count: u64,
}

/// Tracks sequence state for a single publisher.
#[derive(Debug, Clone, Copy)]
pub struct PublisherState {
    /// Highest sequence number received so far.
    pub last_seq: u64,
    /// Total messages received from this publisher.
    pub message_count: u64,
    /// Messages that did not advance the sequence (duplicates and late arrivals).
    pub out_of_order_count: u64,
    /// Sequence numbers skipped over by gaps.
    pub missing_count: u64,
    /// Timestamp of the last message that was not a duplicate.
    pub last_timestamp_ns: Option<u64>,
}

/// The state of a publisher from which nothing has been received yet.
pub open spec fn initial_state() -> PublisherState {
    PublisherState {
        last_seq: 0,
        message_count: 0,
        out_of_order_count: 0,
        missing_count: 0,
        last_timestamp_ns: None,
    }
}

impl SequenceStatus {
    /// The level at which each outcome is reported: anomalies are warnings,
    /// gaps are errors, the first message is informational and a message in
    /// sequence is a debug trace.
    pub open spec fn spec_severity(self) -> Severity {
        match self {
            SequenceStatus::FirstMessage => Severity::Info,
            SequenceStatus::InSequence => Severity::Debug,
            SequenceStatus::Duplicate => Severity::Warn,
            SequenceStatus::OutOfOrder { .. } => Severity::Warn,
            SequenceStatus::Missing { .. } => Severity::Error,
        }
    }

    pub fn severity(&self) -> (r: Severity)
        ensures
            r == self.spec_severity(),
    {
        match self {
            SequenceStatus::FirstMessage => Severity::Info,
            SequenceStatus::InSequence => Severity::Debug,
            SequenceStatus::Duplicate => Severity::Warn,
            SequenceStatus::OutOfOrder { .. } => Severity::Warn,
            SequenceStatus::Missing { .. } => Severity::Error,
        }
    }
}

impl PublisherState {
    /// Whether `seq` is the wrap-around of the sequence: 0 right after the
    /// highest value, `u64::MAX`.
    pub open spec fn is_wrap(self, seq: u64) -> bool {
        self.message_count > 0 && self.last_seq == u64::MAX && seq == 0
    }

    /// The sequence number that follows the last one; it wraps to 0 after `u64::MAX`.
    pub open spec fn expected_next(self) -> u64 {
        if self.last_seq == u64::MAX {
            0
        } else {
            (self.last_seq + 1) as u64
        }
    }

    /// Whether `seq` can be processed without any counter leaving the range of `u64`.
    pub open spec fn processes_without_overflow(self, seq: u64) -> bool {
        &&& self.message_count < u64::MAX
        &&& self.message_count > 0 ==> {
            &&& seq <= self.last_seq && !self.is_wrap(seq) ==> self.out_of_order_count
                < u64::MAX
            &&& seq > self.last_seq + 1 ==> self.missing_count + (seq - self.last_seq - 1)
                <= u64::MAX
        }
    }

    /// The classification of `seq` against this state. The wrap-around to 0
    /// after `u64::MAX` is reported as missing messages (0 expected, 0
    /// received, no gap); any other lower number is a late arrival.
    pub open spec fn status_for(self, seq: u64) -> SequenceStatus {
        if self.message_count == 0 {
            SequenceStatus::FirstMessage
        } else if seq == self.last_seq {
            SequenceStatus::Duplicate
        } else if self.is_wrap(seq) {
            SequenceStatus::Missing { expected: 0, received: 0, gap_size: 0 }
        } else if seq == self.last_seq + 1 {
            SequenceStatus::InSequence
        } else if seq < self.last_seq {
            SequenceStatus::OutOfOrder { expected: self.expected_next(), received: seq }
        } else {
            SequenceStatus::Missing {
                expected: self.expected_next(),
                received: seq,
                gap_size: (seq - self.last_seq - 1) as u64,
            }
        }
    }

    /// The state after receiving `seq` with timestamp `ts`.
    pub open spec fn next_state(self, seq: u64, ts: Option<u64>) -> PublisherState {
        if self.message_count == 0 {
            PublisherState { last_seq: seq, message_count: 1, last_timestamp_ns: ts, ..self }
        } else if self.is_wrap(seq) {
            PublisherState {
                last_seq: 0,
                message_count: (self.message_count + 1) as u64,
                last_timestamp_ns: ts,
                ..self
            }
        } else {
            PublisherState {
                last_seq: if seq > self.last_seq {
                    seq
                } else {
                    self.last_seq
                },
                message_count: (self.message_count + 1) as u64,
                out_of_order_count: if seq <= self.last_seq {
                    (self.out_of_order_count + 1) as u64
                } else {
                    self.out_of_order_count
                },
                missing_count: if seq > self.last_seq + 1 {
                    (self.missing_count + (seq - self.last_seq - 1)) as u64
                } else {
                    self.missing_count
                },
                last_timestamp_ns: if seq != self.last_seq {
                    ts
                } else {
                    self.last_timestamp_ns
                },
            }
        }
    }

    /// The counters of this state.
    pub open spec fn spec_stats(self) -> PublisherStats {
        PublisherStats {
            message_count: self.message_count,
            last_seq: self.last_seq,
            out_of_order_count: self.out_of_order_count,
            missing_count: self.missing_count,
        }
    }

    pub fn new() -> (s: Self)
        ensures
            s == initial_state(),
    {
        Self {
            last_seq: 0,
            message_count: 0,
            out_of_order_count: 0,
            missing_count: 0,
            last_timestamp_ns: None,
        }
    }

    /// Whether `process_sequence` can take `seq` without a counter overflowing.
    pub fn can_process(&self, seq: u64) -> (r: bool)
        ensures
            r == self.processes_without_overflow(seq),
    {
        if self.message_count == u64::MAX {
            return false;
        }
        if self.message_count == 0 {
            return true;
        }
        if seq <= self.last_seq {
            (self.last_seq == u64::MAX && seq == 0) || self.out_of_order_count < u64::MAX
        } else if seq - self.last_seq > 1 {
            seq - self.last_seq - 1 <= u64::MAX - self.missing_count
        } else {
            true
        }
    }

    /// Process a new sequence number and detect anomalies.
    pub fn process_sequence(&mut self, seq: u64, timestamp_ns: Option<u64>) -> (status:
        SequenceStatus)
        requires
            old(self).processes_without_overflow(seq),
        ensures
            status == old(self).status_for(seq),
            *final(self) == old(self).next_state(seq, timestamp_ns),
    {
        self.message_count += 1;

        // First message from this publisher
        if self.message_count == 1 {
            self.last_seq = seq;
            self.last_timestamp_ns = timestamp_ns;
            return SequenceStatus::FirstMessage;
        }
        if seq == 0 && self.last_seq == u64::MAX {
            // The sequence wrapped around after its highest value
            self.last_seq = 0;
            self.last_timestamp_ns = timestamp_ns;
            return SequenceStatus::Missing { expected: 0, received: 0, gap_size: 0 };
        }
        let expected = if self.last_seq == u64::MAX {
            0
        } else {
            self.last_seq + 1
        };
        let status = if seq == self.last_seq {
            self.out_of_order_count += 1;
            SequenceStatus::Duplicate
        } else if seq < self.last_seq {
            // Late arrival
            self.out_of_order_count += 1;
            SequenceStatus::OutOfOrder { expected, received: seq }
        } else if seq == expected {
            SequenceStatus::InSequence
        } else {
            // Gap detected - missing messages
            let gap = seq - self.last_seq - 1;
            self.missing_count += gap;
            SequenceStatus::Missing { expected, received: seq, gap_size: gap }
        };

        // Only advance if not a duplicate
        if seq != self.last_seq {
            if seq > self.last_seq {
                self.last_seq = seq;
            }
            self.last_timestamp_ns = timestamp_ns;
        }
        status
    }

    pub fn get_stats(&self) -> (stats: PublisherStats)
        ensures
            stats == self.spec_stats(),
    {
        PublisherStats {
            message_count: self.message_count,
            last_seq: self.last_seq,
            out_of_order_count: self.out_of_order_count,
            missing_count: self.missing_count,
        }
    }
}

} // verus!

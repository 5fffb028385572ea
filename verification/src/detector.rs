//! The sequence detector proper: one tracking state per publisher id.
use vstd::prelude::*;
use crate::history::{lemma_replay_push, replay, replayable};
use crate::proto::{decode, decode_protobuf};
use crate::publisher::{initial_state, PublisherState, PublisherStats, SequenceStatus};

verus! {

#[verifier::external_type_specification]
#[verifier::external_body]
pub struct ExJsonValue(serde_json::Value);

/// Message format for sequence-tracked messages.
///
/// Publishers include this metadata with each message: `seq` increases by
/// one per message of a publisher, `publisher_id` is unique and stable,
/// `timestamp_ns` is optional and `payload` is carried through untouched.
#[derive(Debug, Clone)]
pub struct SequencedMessage {
    /// Monotonically increasing sequence number (per publisher)
    pub seq: u64,
    /// Unique identifier for the message publisher
    pub publisher_id: String,
    /// Timestamp in nanoseconds since UNIX epoch (optional)
    pub timestamp_ns: Option<u64>,
    /// The message payload (any JSON value)
    pub payload: Option<serde_json::Value>,
}

/// The map from publisher id to state that a list of entries describes.
pub open spec fn entries_map(e: Seq<(String, PublisherState)>) -> Map<Seq<char>, PublisherState>
    decreases e.len(),
{
    if e.len() == 0 {
        Map::empty()
    } else {
        entries_map(e.drop_last()).insert(e.last().0@, e.last().1)
    }
}

/// No publisher id occurs twice.
pub open spec fn distinct_ids(e: Seq<(String, PublisherState)>) -> bool {
    forall|i: int, j: int| 0 <= i < j < e.len() ==> e[i].0@ != e[j].0@
}

proof fn lemma_entries_map_dom(e: Seq<(String, PublisherState)>, k: Seq<char>)
    ensures
        entries_map(e).contains_key(k) <==> exists|i: int| 0 <= i < e.len() && #[trigger] e[i].0@ == k,
    decreases e.len(),
{
    if e.len() > 0 {
        let p = e.drop_last();
        lemma_entries_map_dom(p, k);
        if entries_map(e).contains_key(k) {
            if k == e.last().0@ {
                assert(e[e.len() - 1].0@ == k);
            } else {
                let i = choose|i: int| 0 <= i < p.len() && #[trigger] p[i].0@ == k;
                assert(e[i] == p[i]);
            }
        }
        if exists|i: int| 0 <= i < e.len() && #[trigger] e[i].0@ == k {
            let i = choose|i: int| 0 <= i < e.len() && #[trigger] e[i].0@ == k;
            if i < e.len() - 1 {
                assert(p[i] == e[i]);
            }
        }
    }
}

proof fn lemma_entries_map_index(e: Seq<(String, PublisherState)>, i: int)
    requires
        distinct_ids(e),
        0 <= i < e.len(),
    ensures
        entries_map(e).contains_key(e[i].0@),
        entries_map(e)[e[i].0@] == e[i].1,
    decreases e.len(),
{
    let p = e.drop_last();
    if i < e.len() - 1 {
        assert(p[i] == e[i]);
        lemma_entries_map_index(p, i);
    }
}

proof fn lemma_entries_map_update(
    e: Seq<(String, PublisherState)>,
    i: int,
    id: String,
    v: PublisherState,
)
    requires
        distinct_ids(e),
        0 <= i < e.len(),
        id@ == e[i].0@,
    ensures
        distinct_ids(e.update(i, (id, v))),
        entries_map(e.update(i, (id, v))) == entries_map(e).insert(id@, v),
    decreases e.len(),
{
    let e2 = e.update(i, (id, v));
    let p = e.drop_last();
    if i == e.len() - 1 {
        assert(e2.drop_last() =~= p);
        assert(entries_map(e2) =~= entries_map(e).insert(id@, v));
    } else {
        assert(e2.drop_last() =~= p.update(i, (id, v)));
        assert(p[i] == e[i]);
        lemma_entries_map_update(p, i, id, v);
        assert(e[e.len() - 1].0@ != e[i].0@);
        assert(entries_map(e2) =~= entries_map(e).insert(id@, v));
    }
}

/// The publisher ids of a statistics snapshot, in order.
pub open spec fn snapshot_ids(v: Seq<(String, PublisherStats)>) -> Seq<Seq<char>> {
    v.map_values(|p: (String, PublisherStats)| p.0@)
}

/// The state of publisher `id` in a tracking map: its entry, or the initial
/// state when it has none.
pub open spec fn state_in(m: Map<Seq<char>, PublisherState>, id: Seq<char>) -> PublisherState {
    if m.contains_key(id) {
        m[id]
    } else {
        initial_state()
    }
}

/// The tracking map after recording `msgs` (publisher id, sequence number,
/// timestamp) in order, starting from no publisher, each step as `record`
/// states it.
pub open spec fn tracked_after(msgs: Seq<(Seq<char>, u64, Option<u64>)>) -> Map<
    Seq<char>,
    PublisherState,
>
    decreases msgs.len(),
{
    if msgs.len() == 0 {
        Map::empty()
    } else {
        let m = tracked_after(msgs.drop_last());
        let (id, seq, ts) = msgs.last();
        m.insert(id, state_in(m, id).next_state(seq, ts))
    }
}

/// The messages of `msgs` that publisher `id` sent, in arrival order.
pub open spec fn own_history(msgs: Seq<(Seq<char>, u64, Option<u64>)>, id: Seq<char>) -> Seq<
    (u64, Option<u64>),
>
    decreases msgs.len(),
{
    if msgs.len() == 0 {
        Seq::empty()
    } else {
        let h = own_history(msgs.drop_last(), id);
        if msgs.last().0 == id {
            h.push((msgs.last().1, msgs.last().2))
        } else {
            h
        }
    }
}

/// Why a message is not tracked.
#[derive(Debug, Clone, Copy, PartialEq, Eq, Structural)]
pub enum MessageError {
    /// The publisher id is missing or empty.
    EmptyPublisherId,
}

/// A message is tracked only when it names its publisher: the publisher id
/// is required and must not be empty.
pub fn validate_publisher_id(publisher_id: &String) -> (r: Result<(), MessageError>)
    ensures
        r is Ok <==> publisher_id@.len() > 0,
        r matches Err(e) ==> e == MessageError::EmptyPublisherId,
{
    if publisher_id.as_str().is_empty() {
        Err(MessageError::EmptyPublisherId)
    } else {
        Ok(())
    }
}

/// What became of one received sample.
#[derive(Debug, Clone, PartialEq, Eq)]
pub enum SampleOutcome {
    /// The message was recorded against its publisher.
    Recorded { publisher_id: String, seq: u64, status: SequenceStatus },
    /// The sample is neither a JSON nor a binary sequenced message.
    Undecodable,
    /// The message names no publisher.
    MissingPublisherId,
    /// Recording the message would overflow a counter of its publisher.
    CounterOverflow,
}

/// The (publisher id, sequence number, timestamp) a sample carries: its
/// JSON message when the JSON form parsed, else its binary form when that
/// decodes, else nothing.
pub open spec fn sample_fields(json: Option<&SequencedMessage>, payload: Seq<u8>) -> Option<
    (Seq<char>, u64, Option<u64>),
> {
    match json {
        Some(m) => Some((m.publisher_id@, m.seq, m.timestamp_ns)),
        None => match decode(payload) {
            Some(p) => Some((p.publisher_id, p.seq, p.timestamp_ns)),
            None => None,
        },
    }
}

/// Per-publisher sequence tracking.
pub struct SequenceDetector {
    entries: Vec<(String, PublisherState)>,
}

impl View for SequenceDetector {
    type V = Map<Seq<char>, PublisherState>;

    closed spec fn view(&self) -> Map<Seq<char>, PublisherState> {
        entries_map(self.entries@)
    }
}

impl SequenceDetector {
    #[verifier::type_invariant]
    spec fn ids_distinct(self) -> bool {
        distinct_ids(self.entries@)
    }

    /// The state of publisher `id`: its tracked state, or the initial one if
    /// nothing has been received from it yet.
    pub open spec fn state_of(&self, id: Seq<char>) -> PublisherState {
        state_in(self@, id)
    }

    /// A message with sequence number `seq` from publisher `id` can be
    /// handled without a counter of that publisher overflowing.
    pub open spec fn accepts(&self, id: Seq<char>, seq: u64) -> bool {
        self.state_of(id).processes_without_overflow(seq)
    }

    pub fn new() -> (d: Self)
        ensures
            d@ == Map::<Seq<char>, PublisherState>::empty(),
    {
        SequenceDetector { entries: Vec::new() }
    }

    fn find(&self, id: &String) -> (r: Option<usize>)
        ensures
            match r {
                Some(i) => i < self.entries@.len() && self.entries@[i as int].0@ == id@,
                None => forall|j: int|
                    0 <= j < self.entries@.len() ==> #[trigger] self.entries@[j].0@ != id@,
            },
    {
        let mut i: usize = 0;
        while i < self.entries.len()
            invariant
                i <= self.entries@.len(),
                forall|j: int| 0 <= j < i ==> #[trigger] self.entries@[j].0@ != id@,
            decreases self.entries@.len() - i,
        {
            if self.entries[i].0 == *id {
                return Some(i);
            }
            i += 1;
        }
        None
    }

    /// Whether `handle_message` can take `msg` without a counter overflowing.
    pub fn can_accept(&self, msg: &SequencedMessage) -> (r: bool)
        ensures
            r == self.accepts(msg.publisher_id@, msg.seq),
    {
        self.can_record(&msg.publisher_id, msg.seq)
    }

    /// Whether `record` can take `seq` from `publisher_id` without a counter overflowing.
    pub fn can_record(&self, publisher_id: &String, seq: u64) -> (r: bool)
        ensures
            r == self.accepts(publisher_id@, seq),
    {
        proof {
            use_type_invariant(self);
        }
        match self.find(publisher_id) {
            Some(i) => {
                proof {
                    lemma_entries_map_index(self.entries@, i as int);
                }
                self.entries[i].1.can_process(seq)
            },
            None => {
                proof {
                    lemma_entries_map_dom(self.entries@, publisher_id@);
                }
                PublisherState::new().can_process(seq)
            },
        }
    }

    /// Handles one received sample: the JSON message `json` when the payload
    /// parsed as one, otherwise the binary form of `payload`. A sample that is
    /// neither, names no publisher, or would overflow a counter changes
    /// nothing; any other is recorded against its publisher.
    pub fn handle_sample(&mut self, json: Option<&SequencedMessage>, payload: &[u8]) -> (r:
        SampleOutcome)
        ensures
            match sample_fields(json, payload@) {
                None => r is Undecodable && final(self)@ == old(self)@,
                Some((id, seq, ts)) => if id.len() == 0 {
                    r is MissingPublisherId && final(self)@ == old(self)@
                } else if !old(self).accepts(id, seq) {
                    r is CounterOverflow && final(self)@ == old(self)@
                } else {
                    &&& r matches SampleOutcome::Recorded { publisher_id, seq: s, status }
                    &&& publisher_id@ == id
                    &&& s == seq
                    &&& status == old(self).state_of(id).status_for(seq)
                    &&& final(self)@ == old(self)@.insert(id, old(self).state_of(id).next_state(seq, ts))
                },
            },
    {
        let (id, seq, ts) = match json {
            Some(m) => (m.publisher_id.clone(), m.seq, m.timestamp_ns),
            None => match decode_protobuf(payload) {
                Some(p) => (p.publisher_id, p.seq, p.timestamp_ns),
                None => {
                    return SampleOutcome::Undecodable;
                },
            },
        };
        if validate_publisher_id(&id).is_err() {
            return SampleOutcome::MissingPublisherId;
        }
        if !self.can_record(&id, seq) {
            return SampleOutcome::CounterOverflow;
        }
        let status = self.record(&id, seq, ts);
        SampleOutcome::Recorded { publisher_id: id, seq, status }
    }

    /// Records `msg` against the state of its publisher (see `record`).
    pub fn handle_message(&mut self, msg: &SequencedMessage) -> (status: SequenceStatus)
        requires
            old(self).accepts(msg.publisher_id@, msg.seq),
        ensures
            status == old(self).state_of(msg.publisher_id@).status_for(msg.seq),
            final(self)@ == old(self)@.insert(
                msg.publisher_id@,
                old(self).state_of(msg.publisher_id@).next_state(msg.seq, msg.timestamp_ns),
            ),
    {
        self.record(&msg.publisher_id, msg.seq, msg.timestamp_ns)
    }

    /// Records sequence number `seq` (with its timestamp) against the state
    /// of `publisher_id`, creating that state on its first message, and
    /// classifies it. The states of all other publishers are left as they were.
    pub fn record(&mut self, publisher_id: &String, seq: u64, timestamp_ns: Option<u64>) -> (status:
        SequenceStatus)
        requires
            old(self).accepts(publisher_id@, seq),
        ensures
            status == old(self).state_of(publisher_id@).status_for(seq),
            final(self)@ == old(self)@.insert(
                publisher_id@,
                old(self).state_of(publisher_id@).next_state(seq, timestamp_ns),
            ),
    {
        proof {
            use_type_invariant(&*self);
        }
        let found = self.find(publisher_id);
        let mut entries: Vec<(String, PublisherState)> = Vec::new();
        std::mem::swap(&mut entries, &mut self.entries);
        match found {
            Some(i) => {
                proof {
                    lemma_entries_map_index(entries@, i as int);
                }
                let mut state = entries[i].1;
                let status = state.process_sequence(seq, timestamp_ns);
                let id = entries[i].0.clone();
                proof {
                    lemma_entries_map_update(entries@, i as int, id, state);
                }
                entries.set(i, (id, state));
                self.entries = entries;
                status
            },
            None => {
                proof {
                    lemma_entries_map_dom(entries@, publisher_id@);
                }
                let mut state = PublisherState::new();
                let status = state.process_sequence(seq, timestamp_ns);
                let id = publisher_id.clone();
                let ghost prev = entries@;
                entries.push((id, state));
                proof {
                    assert(entries@.drop_last() =~= prev);
                }
                self.entries = entries;
                status
            },
        }
    }

    /// The counters of every tracked publisher, or `None` when no publisher
    /// has been seen yet. Each publisher occurs exactly once.
    pub fn stats_snapshot(&self) -> (r: Option<Vec<(String, PublisherStats)>>)
        ensures
            r is None <==> self@.dom().is_empty(),
            r matches Some(v) ==> {
                &&& forall|i: int, j: int| 0 <= i < j < v@.len() ==> v@[i].0@ != v@[j].0@
                &&& forall|i: int|
                    0 <= i < v@.len() ==> self@.contains_key(#[trigger] v@[i].0@) && v@[i].1
                        == self@[v@[i].0@].spec_stats()
                &&& forall|k: Seq<char>|
                    #[trigger] self@.contains_key(k) ==> snapshot_ids(v@).contains(k)
            },
    {
        proof {
            use_type_invariant(self);
        }
        let n = self.entries.len();
        if n == 0 {
            proof {
                assert forall|k: Seq<char>| !self@.contains_key(k) by {
                    lemma_entries_map_dom(self.entries@, k);
                }
                assert(self@.dom() =~= Set::<Seq<char>>::empty());
            }
            return None;
        }
        let mut v: Vec<(String, PublisherStats)> = Vec::new();
        let mut i: usize = 0;
        while i < n
            invariant
                n == self.entries@.len(),
                i <= n,
                v@.len() == i,
                forall|j: int|
                    0 <= j < i ==> #[trigger] v@[j].0@ == self.entries@[j].0@ && v@[j].1
                        == self.entries@[j].1.spec_stats(),
            decreases n - i,
        {
            let id = self.entries[i].0.clone();
            let stats = self.entries[i].1.get_stats();
            v.push((id, stats));
            i += 1;
        }
        proof {
            lemma_entries_map_index(self.entries@, 0);
            assert(self@.dom().contains(self.entries@[0].0@));
            assert forall|a: int, b: int| 0 <= a < b < v@.len() implies v@[a].0@ != v@[b].0@ by {
                assert(v@[a].0@ == self.entries@[a].0@);
                assert(v@[b].0@ == self.entries@[b].0@);
            }
            assert forall|j: int| 0 <= j < v@.len() implies self@.contains_key(#[trigger] v@[j].0@)
                && v@[j].1 == self@[v@[j].0@].spec_stats() by {
                lemma_entries_map_index(self.entries@, j);
            }
            assert forall|k: Seq<char>| #[trigger] self@.contains_key(k) implies snapshot_ids(
                v@,
            ).contains(k) by {
                lemma_entries_map_dom(self.entries@, k);
                let j = choose|j: int| 0 <= j < self.entries@.len() && #[trigger] self.entries@[j].0@ == k;
                assert(snapshot_ids(v@)[j] == k);
            }
        }
        Some(v)
    }
}

/// Each publisher's state is the replay of the messages recorded for it: when
/// the state of `id` is the replay of history `h`, recording `(seq, ts)` for
/// `id` (as `record` and `handle_message` state it) makes that state the
/// replay of `h` followed by the message, keeps the history replayable, and
/// leaves every other publisher as it was.
pub proof fn lemma_record_extends_history(
    d: SequenceDetector,
    id: Seq<char>,
    h: Seq<(u64, Option<u64>)>,
    seq: u64,
    ts: Option<u64>,
)
    requires
        d.state_of(id) == replay(h),
        replayable(h),
        d.accepts(id, seq),
    ensures
        ({
            let after = d@.insert(id, d.state_of(id).next_state(seq, ts));
            &&& after[id] == replay(h.push((seq, ts)))
            &&& replayable(h.push((seq, ts)))
            &&& forall|k: Seq<char>|
                k != id ==> (#[trigger] after.contains_key(k) == d@.contains_key(k) && (
                d@.contains_key(k) ==> after[k] == d@[k]))
        }),
{
    lemma_replay_push(h, seq, ts);
}

/// Over a whole stream of messages from many publishers, each publisher's
/// state is the replay of its own messages, in arrival order, and exactly
/// the publishers that sent something are tracked.
pub proof fn lemma_each_publisher_replays_own_history(msgs: Seq<(Seq<char>, u64, Option<u64>)>)
    ensures
        forall|id: Seq<char>|
            #[trigger] state_in(tracked_after(msgs), id) == replay(own_history(msgs, id)),
        forall|id: Seq<char>|
            #[trigger] tracked_after(msgs).contains_key(id) <==> exists|i: int|
                0 <= i < msgs.len() && msgs[i].0 == id,
    decreases msgs.len(),
{
    if msgs.len() > 0 {
        let p = msgs.drop_last();
        lemma_each_publisher_replays_own_history(p);
        let (lid, seq, ts) = msgs.last();
        assert forall|id: Seq<char>| #[trigger]
            state_in(tracked_after(msgs), id) == replay(own_history(msgs, id)) by {
            assert(state_in(tracked_after(p), id) == replay(own_history(p, id)));
            if id == lid {
                lemma_replay_push(own_history(p, id), seq, ts);
            }
        }
        assert forall|id: Seq<char>| #[trigger]
            tracked_after(msgs).contains_key(id) <==> exists|i: int|
                0 <= i < msgs.len() && msgs[i].0 == id by {
            assert(tracked_after(p).contains_key(id) <==> exists|i: int|
                0 <= i < p.len() && p[i].0 == id);
            if exists|i: int| 0 <= i < msgs.len() && msgs[i].0 == id {
                let i = choose|i: int| 0 <= i < msgs.len() && msgs[i].0 == id;
                if i < p.len() {
                    assert(p[i] == msgs[i]);
                } else {
                    assert(id == lid);
                }
            }
            if tracked_after(p).contains_key(id) {
                let i = choose|i: int| 0 <= i < p.len() && p[i].0 == id;
                assert(msgs[i] == p[i]);
            }
            if id == lid {
                assert(msgs[msgs.len() - 1].0 == id);
            }
        }
    }
}

} // verus!

//! The binary (Protocol Buffers) form of a sequenced message, schema
//!
//! ```text
//! message SequencedMessage {
//!     uint64 seq = 1;
//!     string publisher_id = 2;
//!     optional uint64 timestamp_ns = 3;
//!     optional bytes payload = 4;
//! }
//! ```
//!
//! decoded with the proto3 wire rules: fields in any order, the last
//! occurrence of a field wins, unknown fields are skipped, a known field with
//! the wrong wire type or a string that is not UTF-8 refuses the message.
//! Groups (wire types 3 and 4), which this schema never produces, are refused.
use vstd::prelude::*;
use vstd::utf8::{decode_utf8, valid_utf8};

verus! {

/// The content of a decoded message.
pub struct ProtoModel {
    pub seq: u64,
    pub publisher_id: Seq<char>,
    pub timestamp_ns: Option<u64>,
    pub payload: Option<Seq<u8>>,
}

/// One field read from the wire.
pub enum WireField {
    SeqNumber(u64),
    PublisherId(Seq<char>),
    Timestamp(u64),
    Payload(Seq<u8>),
    Unknown,
}

/// A decoded binary sequenced message.
#[derive(Debug, Clone, PartialEq, Eq)]
pub struct ProtoMessage {
    pub seq: u64,
    pub publisher_id: String,
    pub timestamp_ns: Option<u64>,
    pub payload: Option<Vec<u8>>,
}

pub open spec fn opt_bytes(o: Option<Vec<u8>>) -> Option<Seq<u8>> {
    match o {
        Some(v) => Some(v@),
        None => None,
    }
}

impl View for ProtoMessage {
    type V = ProtoModel;

    open spec fn view(&self) -> ProtoModel {
        ProtoModel {
            seq: self.seq,
            publisher_id: self.publisher_id@,
            timestamp_ns: self.timestamp_ns,
            payload: opt_bytes(self.payload),
        }
    }
}

/// The message with every field at its default.
pub open spec fn default_model() -> ProtoModel {
    ProtoModel { seq: 0, publisher_id: Seq::empty(), timestamp_ns: None, payload: None }
}

/// The varint whose `k`-th byte sits at `pos + k`: its value, by Horner's
/// rule over 7-bit groups, and the position just past it. A varint has at
/// most ten bytes.
pub open spec fn varint_tail(b: Seq<u8>, pos: int, k: nat) -> Option<(int, int)>
    decreases 10 - k,
{
    if k >= 10 || pos < 0 || pos + k >= b.len() {
        None
    } else if b[pos + k] < 128 {
        Some((b[pos + k] as int, pos + k + 1))
    } else {
        match varint_tail(b, pos, k + 1) {
            Some((v, e)) => Some((b[pos + k] - 128 + 128 * v, e)),
            None => None,
        }
    }
}

/// The varint at `pos`, when it is well formed and fits in `u64`.
pub open spec fn varint_at(b: Seq<u8>, pos: int) -> Option<(u64, int)> {
    match varint_tail(b, pos, 0) {
        Some((v, e)) => if v <= u64::MAX {
            Some((v as u64, e))
        } else {
            None
        },
        None => None,
    }
}

/// The field whose key starts at `pos`, and the position just past it.
pub open spec fn field_at(b: Seq<u8>, pos: int) -> Option<(WireField, int)> {
    match varint_at(b, pos) {
        None => None,
        Some((key, p)) => {
            let num = key / 8;
            let wire = key % 8;
            let known = 1 <= num <= 4;
            if key > u32::MAX || num == 0 {
                None
            } else if wire == 0 {
                match varint_at(b, p) {
                    None => None,
                    Some((v, q)) => if num == 1 {
                        Some((WireField::SeqNumber(v), q))
                    } else if num == 3 {
                        Some((WireField::Timestamp(v), q))
                    } else if known {
                        None
                    } else {
                        Some((WireField::Unknown, q))
                    },
                }
            } else if wire == 2 {
                match varint_at(b, p) {
                    None => None,
                    Some((len, q)) => if q + len > b.len() {
                        None
                    } else {
                        let data = b.subrange(q, q + len);
                        if num == 2 {
                            if valid_utf8(data) {
                                Some((WireField::PublisherId(decode_utf8(data)), q + len))
                            } else {
                                None
                            }
                        } else if num == 4 {
                            Some((WireField::Payload(data), q + len))
                        } else if known {
                            None
                        } else {
                            Some((WireField::Unknown, q + len))
                        }
                    },
                }
            } else if wire == 1 {
                if known || p + 8 > b.len() {
                    None
                } else {
                    Some((WireField::Unknown, p + 8))
                }
            } else if wire == 5 {
                if known || p + 4 > b.len() {
                    None
                } else {
                    Some((WireField::Unknown, p + 4))
                }
            } else {
                None
            }
        },
    }
}

/// `m` with field `f` applied: a known field replaces the current value.
pub open spec fn apply_field(m: ProtoModel, f: WireField) -> ProtoModel {
    match f {
        WireField::SeqNumber(v) => ProtoModel { seq: v, ..m },
        WireField::PublisherId(s) => ProtoModel { publisher_id: s, ..m },
        WireField::Timestamp(t) => ProtoModel { timestamp_ns: Some(t), ..m },
        WireField::Payload(p) => ProtoModel { payload: Some(p), ..m },
        WireField::Unknown => m,
    }
}

pub proof fn lemma_varint_tail_bounds(b: Seq<u8>, pos: int, k: nat)
    ensures
        varint_tail(b, pos, k) matches Some((v, e)) ==> v >= 0 && pos + k < e <= b.len() && e
            <= pos + 10,
    decreases 10 - k,
{
    if !(k >= 10 || pos < 0 || pos + k >= b.len()) && b[pos + k] >= 128 {
        lemma_varint_tail_bounds(b, pos, k + 1);
    }
}

pub proof fn lemma_field_at_advances(b: Seq<u8>, pos: int)
    ensures
        field_at(b, pos) matches Some((f, q)) ==> pos < q <= b.len(),
{
    lemma_varint_tail_bounds(b, pos, 0);
    if let Some((key, p)) = varint_at(b, pos) {
        lemma_varint_tail_bounds(b, p, 0);
    }
}

/// The message that the fields from `pos` on turn `m` into, or `None` when
/// they are malformed.
pub open spec fn decode_from(b: Seq<u8>, pos: int, m: ProtoModel) -> Option<ProtoModel>
    decreases b.len() - pos,
{
    if pos < 0 || pos >= b.len() {
        Some(m)
    } else {
        match field_at(b, pos) {
            None => None,
            Some((f, q)) => {
                proof {
                    lemma_field_at_advances(b, pos);
                }
                decode_from(b, q, apply_field(m, f))
            },
        }
    }
}

/// The message that `b` encodes, or `None` when `b` is not a well-formed encoding.
pub open spec fn decode(b: Seq<u8>) -> Option<ProtoModel> {
    decode_from(b, 0, default_model())
}

/// The varint encoding of `v`: 7-bit groups, least significant first, each
/// but the last with its high bit set.
pub open spec fn encode_varint(v: nat) -> Seq<u8>
    decreases v,
{
    if v < 128 {
        seq![v as u8]
    } else {
        seq![(v % 128 + 128) as u8] + encode_varint(v / 128)
    }
}

/// A length-delimited field: key byte, length, data.
pub open spec fn encode_len_field(key: u8, data: Seq<u8>) -> Seq<u8> {
    seq![key] + encode_varint(data.len()) + data
}

/// The canonical encoding of a message, as a protobuf encoder writes it:
/// fields in order, a plain field only when it differs from its default, an
/// optional field whenever it is set.
pub open spec fn encode(m: ProtoModel) -> Seq<u8> {
    seq_segment(m.seq) + id_segment(m.publisher_id) + timestamp_segment(m.timestamp_ns)
        + payload_segment(m.payload)
}

/// The sequence number on the wire (key 8), omitted when zero.
pub open spec fn seq_segment(v: u64) -> Seq<u8> {
    if v != 0 {
        seq![8u8] + encode_varint(v as nat)
    } else {
        Seq::empty()
    }
}

/// The publisher id on the wire (key 18, UTF-8), omitted when empty.
pub open spec fn id_segment(id: Seq<char>) -> Seq<u8> {
    if id.len() > 0 {
        encode_len_field(18u8, vstd::utf8::encode_utf8(id))
    } else {
        Seq::empty()
    }
}

/// The timestamp on the wire (key 24), whenever it is set.
pub open spec fn timestamp_segment(t: Option<u64>) -> Seq<u8> {
    match t {
        Some(v) => seq![24u8] + encode_varint(v as nat),
        None => Seq::empty(),
    }
}

/// The payload on the wire (key 34), whenever it is set.
pub open spec fn payload_segment(p: Option<Seq<u8>>) -> Seq<u8> {
    match p {
        Some(d) => encode_len_field(34u8, d),
        None => Seq::empty(),
    }
}

pub open spec fn pow128(n: nat) -> nat
    decreases n,
{
    if n == 0 {
        1
    } else {
        128 * pow128((n - 1) as nat)
    }
}

proof fn lemma_varint_len(v: nat, n: nat)
    requires
        n >= 1,
        v < pow128(n),
    ensures
        encode_varint(v).len() <= n,
    decreases v,
{
    if v >= 128 {
        if n == 1 {
            assert(pow128(1) == 128 * pow128(0));
        } else {
            assert(pow128(n) == 128 * pow128((n - 1) as nat));
            lemma_varint_len(v / 128, (n - 1) as nat);
        }
    }
}

proof fn lemma_u64_varint_len(v: u64)
    ensures
        1 <= encode_varint(v as nat).len() <= 10,
{
    reveal_with_fuel(pow128, 11);
    assert(pow128(10) == 1180591620717411303424nat);
    lemma_varint_len(v as nat, 10);
}

proof fn lemma_varint_tail_read(b: Seq<u8>, pos: int, k: nat, v: nat)
    requires
        0 <= pos,
        k + encode_varint(v).len() <= 10,
        pos + k + encode_varint(v).len() <= b.len(),
        forall|i: int|
            0 <= i < encode_varint(v).len() ==> b[pos + k + i] == #[trigger] encode_varint(v)[i],
    ensures
        varint_tail(b, pos, k) == Some((v as int, pos + k + encode_varint(v).len())),
    decreases v,
{
    let e = encode_varint(v);
    assert(b[pos + k + 0] == e[0]);
    if v >= 128 {
        let e2 = encode_varint(v / 128);
        assert forall|i: int| 0 <= i < e2.len() implies b[pos + (k + 1) + i] == #[trigger] e2[i] by {
            assert(e[i + 1] == e2[i]);
            assert(b[pos + k + (i + 1)] == e[i + 1]);
        }
        lemma_varint_tail_read(b, pos, k + 1, v / 128);
    }
}

proof fn lemma_varint_read(b: Seq<u8>, pos: int, v: u64)
    requires
        0 <= pos,
        pos + encode_varint(v as nat).len() <= b.len(),
        b.subrange(pos, pos + encode_varint(v as nat).len()) == encode_varint(v as nat),
    ensures
        varint_at(b, pos) == Some((v, pos + encode_varint(v as nat).len())),
{
    let e = encode_varint(v as nat);
    lemma_u64_varint_len(v);
    assert forall|i: int| 0 <= i < e.len() implies b[pos + 0 + i] == #[trigger] e[i] by {
        assert(b.subrange(pos, pos + e.len())[i] == b[pos + i]);
    }
    lemma_varint_tail_read(b, pos, 0, v as nat);
}

proof fn lemma_key_read(b: Seq<u8>, pos: int, key: u8)
    requires
        0 <= pos < b.len(),
        b[pos] == key,
        key < 128,
    ensures
        varint_at(b, pos) == Some((key as u64, pos + 1)),
{
}

/// Reading a varint-valued field (`key` 8 for the sequence number, 24 for
/// the timestamp) laid out at `pos`.
proof fn lemma_varint_field(b: Seq<u8>, pos: int, key: u8, v: u64)
    requires
        key == 8 || key == 24,
        0 <= pos,
        pos + 1 + encode_varint(v as nat).len() <= b.len(),
        b.subrange(pos, pos + 1 + encode_varint(v as nat).len()) == seq![key] + encode_varint(
            v as nat,
        ),
    ensures
        field_at(b, pos) == Some(
            (
                if key == 8 {
                    WireField::SeqNumber(v)
                } else {
                    WireField::Timestamp(v)
                },
                pos + 1 + encode_varint(v as nat).len(),
            ),
        ),
{
    let f = seq![key] + encode_varint(v as nat);
    assert(b[pos] == b.subrange(pos, pos + f.len())[0]);
    lemma_key_read(b, pos, key);
    let e = encode_varint(v as nat);
    assert(b.subrange(pos + 1, pos + 1 + e.len()) =~= e) by {
        assert forall|i: int| 0 <= i < e.len() implies b.subrange(pos + 1, pos + 1 + e.len())[i]
            == e[i] by {
            assert(b.subrange(pos, pos + f.len())[i + 1] == b[pos + 1 + i]);
            assert(f[i + 1] == e[i]);
        }
    }
    lemma_varint_read(b, pos + 1, v);
}

/// Reading a length-delimited field (`key` 18 for the publisher id, 34 for
/// the payload) laid out at `pos`.
proof fn lemma_len_field(b: Seq<u8>, pos: int, key: u8, data: Seq<u8>)
    requires
        key == 18 || key == 34,
        key == 18 ==> valid_utf8(data),
        data.len() <= u64::MAX,
        0 <= pos,
        pos + encode_len_field(key, data).len() <= b.len(),
        b.subrange(pos, pos + encode_len_field(key, data).len()) == encode_len_field(key, data),
    ensures
        field_at(b, pos) == Some(
            (
                if key == 18 {
                    WireField::PublisherId(decode_utf8(data))
                } else {
                    WireField::Payload(data)
                },
                pos + encode_len_field(key, data).len(),
            ),
        ),
{
    let n = data.len() as u64;
    let lv = encode_varint(n as nat);
    let f = encode_len_field(key, data);
    let s = b.subrange(pos, pos + f.len());
    assert(b[pos] == s[0]);
    lemma_key_read(b, pos, key);
    assert(b.subrange(pos + 1, pos + 1 + lv.len()) =~= lv) by {
        assert forall|i: int| 0 <= i < lv.len() implies b.subrange(pos + 1, pos + 1 + lv.len())[i]
            == lv[i] by {
            assert(s[i + 1] == b[pos + 1 + i]);
            assert(f[i + 1] == lv[i]);
        }
    }
    lemma_varint_read(b, pos + 1, n);
    let q = pos + 1 + lv.len();
    assert(b.subrange(q, q + n) =~= data) by {
        assert forall|i: int| 0 <= i < data.len() implies b.subrange(q, q + n)[i] == data[i] by {
            assert(s[1 + lv.len() + i] == b[q + i]);
            assert(f[1 + lv.len() + i] == data[i]);
        }
    }
}

proof fn lemma_decode_step(b: Seq<u8>, pos: int, n: int, f: WireField, m: ProtoModel)
    requires
        0 <= pos,
        n > 0,
        pos + n <= b.len(),
        field_at(b, pos) == Some((f, pos + n)),
    ensures
        decode_from(b, pos, m) == decode_from(b, pos + n, apply_field(m, f)),
{
}

/// `base` with every field that `m` puts on the wire (a non-zero sequence
/// number, a non-empty publisher id, a set timestamp, a set payload)
/// replaced by `m`'s.
pub open spec fn merge(base: ProtoModel, m: ProtoModel) -> ProtoModel {
    ProtoModel {
        seq: if m.seq != 0 {
            m.seq
        } else {
            base.seq
        },
        publisher_id: if m.publisher_id.len() > 0 {
            m.publisher_id
        } else {
            base.publisher_id
        },
        timestamp_ns: if m.timestamp_ns is Some {
            m.timestamp_ns
        } else {
            base.timestamp_ns
        },
        payload: if m.payload is Some {
            m.payload
        } else {
            base.payload
        },
    }
}

proof fn lemma_seq_segment(b: Seq<u8>, pos: int, v: u64, m0: ProtoModel)
    requires
        0 <= pos,
        pos + seq_segment(v).len() <= b.len(),
        b.subrange(pos, pos + seq_segment(v).len()) == seq_segment(v),
    ensures
        decode_from(b, pos, m0) == decode_from(
            b,
            pos + seq_segment(v).len(),
            ProtoModel {
                seq: if v != 0 {
                    v
                } else {
                    m0.seq
                },
                ..m0
            },
        ),
{
    if v != 0 {
        lemma_u64_varint_len(v);
        lemma_varint_field(b, pos, 8u8, v);
        lemma_decode_step(b, pos, seq_segment(v).len() as int, WireField::SeqNumber(v), m0);
    } else {
        assert(ProtoModel { seq: m0.seq, ..m0 } == m0);
    }
}

proof fn lemma_id_segment(b: Seq<u8>, pos: int, id: Seq<char>, m0: ProtoModel)
    requires
        0 <= pos,
        vstd::utf8::encode_utf8(id).len() <= u64::MAX,
        pos + id_segment(id).len() <= b.len(),
        b.subrange(pos, pos + id_segment(id).len()) == id_segment(id),
    ensures
        decode_from(b, pos, m0) == decode_from(
            b,
            pos + id_segment(id).len(),
            ProtoModel {
                publisher_id: if id.len() > 0 {
                    id
                } else {
                    m0.publisher_id
                },
                ..m0
            },
        ),
{
    if id.len() > 0 {
        let bytes = vstd::utf8::encode_utf8(id);
        vstd::utf8::encode_utf8_valid_utf8(id);
        vstd::utf8::encode_utf8_decode_utf8(id);
        lemma_u64_varint_len(bytes.len() as u64);
        lemma_len_field(b, pos, 18u8, bytes);
        lemma_decode_step(b, pos, id_segment(id).len() as int, WireField::PublisherId(id), m0);
    } else {
        assert(ProtoModel { publisher_id: m0.publisher_id, ..m0 } == m0);
    }
}

proof fn lemma_timestamp_segment(b: Seq<u8>, pos: int, t: Option<u64>, m0: ProtoModel)
    requires
        0 <= pos,
        pos + timestamp_segment(t).len() <= b.len(),
        b.subrange(pos, pos + timestamp_segment(t).len()) == timestamp_segment(t),
    ensures
        decode_from(b, pos, m0) == decode_from(
            b,
            pos + timestamp_segment(t).len(),
            ProtoModel {
                timestamp_ns: if t is Some {
                    t
                } else {
                    m0.timestamp_ns
                },
                ..m0
            },
        ),
{
    if let Some(v) = t {
        lemma_u64_varint_len(v);
        lemma_varint_field(b, pos, 24u8, v);
        lemma_decode_step(b, pos, timestamp_segment(t).len() as int, WireField::Timestamp(v), m0);
    } else {
        assert(ProtoModel { timestamp_ns: m0.timestamp_ns, ..m0 } == m0);
    }
}

proof fn lemma_payload_segment(b: Seq<u8>, pos: int, p: Option<Seq<u8>>, m0: ProtoModel)
    requires
        0 <= pos,
        p matches Some(d) ==> d.len() <= u64::MAX,
        pos + payload_segment(p).len() <= b.len(),
        b.subrange(pos, pos + payload_segment(p).len()) == payload_segment(p),
    ensures
        decode_from(b, pos, m0) == decode_from(
            b,
            pos + payload_segment(p).len(),
            ProtoModel {
                payload: if p is Some {
                    p
                } else {
                    m0.payload
                },
                ..m0
            },
        ),
{
    if let Some(d) = p {
        lemma_u64_varint_len(d.len() as u64);
        lemma_len_field(b, pos, 34u8, d);
        lemma_decode_step(b, pos, payload_segment(p).len() as int, WireField::Payload(d), m0);
    } else {
        assert(ProtoModel { payload: m0.payload, ..m0 } == m0);
    }
}

/// Reading the canonical encoding of `m` on top of `base` replaces the
/// fields that `m` puts on the wire and keeps the others.
pub proof fn lemma_decode_encode_onto(base: ProtoModel, m: ProtoModel)
    requires
        vstd::utf8::encode_utf8(m.publisher_id).len() <= u64::MAX,
        m.payload matches Some(p) ==> p.len() <= u64::MAX,
    ensures
        decode_from(encode(m), 0, base) == Some(merge(base, m)),
{
    let ea = seq_segment(m.seq);
    let eb = id_segment(m.publisher_id);
    let ec = timestamp_segment(m.timestamp_ns);
    let ed = payload_segment(m.payload);
    let b = encode(m);
    let pb = ea.len() as int;
    let pc = pb + eb.len();
    let pd = pc + ec.len();
    let pe = pd + ed.len();
    assert(b.len() == pe);
    assert(b.subrange(0, pb) =~= ea);
    assert(b.subrange(pb, pc) =~= eb);
    assert(b.subrange(pc, pd) =~= ec);
    assert(b.subrange(pd, pe) =~= ed);

    let r = merge(base, m);
    let m1 = ProtoModel { seq: r.seq, ..base };
    let m2 = ProtoModel { publisher_id: r.publisher_id, ..m1 };
    let m3 = ProtoModel { timestamp_ns: r.timestamp_ns, ..m2 };
    let m4 = ProtoModel { payload: r.payload, ..m3 };
    lemma_seq_segment(b, 0, m.seq, base);
    lemma_id_segment(b, pb, m.publisher_id, m1);
    lemma_timestamp_segment(b, pc, m.timestamp_ns, m2);
    lemma_payload_segment(b, pd, m.payload, m3);
    assert(m4 == r);
}

/// Decoding gives back what was encoded: the canonical encoding of any
/// message whose byte strings fit a `u64` length decodes to that message.
pub proof fn lemma_decode_encode(m: ProtoModel)
    requires
        vstd::utf8::encode_utf8(m.publisher_id).len() <= u64::MAX,
        m.payload matches Some(p) ==> p.len() <= u64::MAX,
    ensures
        decode(encode(m)) == Some(m),
{
    lemma_decode_encode_onto(default_model(), m);
    if m.publisher_id.len() == 0 {
        assert(m.publisher_id =~= Seq::<char>::empty());
    }
    assert(merge(default_model(), m) == m);
}

proof fn lemma_varint_tail_shift(b1: Seq<u8>, b2: Seq<u8>, pos: int, k: nat)
    requires
        0 <= pos,
    ensures
        varint_tail(b1 + b2, pos + b1.len(), k) == match varint_tail(b2, pos, k) {
            Some((v, e)) => Some((v, e + b1.len())),
            None => None,
        },
    decreases 10 - k,
{
    if !(k >= 10 || pos + k >= b2.len()) {
        assert((b1 + b2)[pos + b1.len() + k] == b2[pos + k]);
        lemma_varint_tail_shift(b1, b2, pos, k + 1);
    }
}

proof fn lemma_varint_tail_prefix(b1: Seq<u8>, b2: Seq<u8>, pos: int, k: nat)
    requires
        varint_tail(b1, pos, k) is Some,
    ensures
        varint_tail(b1 + b2, pos, k) == varint_tail(b1, pos, k),
    decreases 10 - k,
{
    assert((b1 + b2)[pos + k] == b1[pos + k]);
    if b1[pos + k] >= 128 {
        lemma_varint_tail_prefix(b1, b2, pos, k + 1);
    }
}

pub open spec fn shift_field(r: Option<(WireField, int)>, n: int) -> Option<(WireField, int)> {
    match r {
        Some((f, q)) => Some((f, q + n)),
        None => None,
    }
}

proof fn lemma_field_at_shift(b1: Seq<u8>, b2: Seq<u8>, pos: int)
    requires
        0 <= pos,
    ensures
        field_at(b1 + b2, pos + b1.len()) == shift_field(field_at(b2, pos), b1.len() as int),
{
    let b = b1 + b2;
    let n = b1.len() as int;
    lemma_varint_tail_shift(b1, b2, pos, 0);
    lemma_varint_tail_bounds(b2, pos, 0);
    if let Some((key, p)) = varint_at(b2, pos) {
        lemma_varint_tail_shift(b1, b2, p, 0);
        lemma_varint_tail_bounds(b2, p, 0);
        if let Some((len, q)) = varint_at(b2, p) {
            if q + len <= b2.len() {
                assert(b.subrange(q + n, q + n + len) =~= b2.subrange(q, q + len));
            }
        }
    }
}

proof fn lemma_field_at_prefix(b1: Seq<u8>, b2: Seq<u8>, pos: int)
    requires
        field_at(b1, pos) is Some,
    ensures
        field_at(b1 + b2, pos) == field_at(b1, pos),
{
    let b = b1 + b2;
    lemma_varint_tail_prefix(b1, b2, pos, 0);
    lemma_varint_tail_bounds(b1, pos, 0);
    let (key, p) = varint_at(b1, pos).unwrap();
    let wire = key % 8;
    if wire == 0 || wire == 2 {
        lemma_varint_tail_prefix(b1, b2, p, 0);
        lemma_varint_tail_bounds(b1, p, 0);
        if wire == 2 {
            let (len, q) = varint_at(b1, p).unwrap();
            assert(b.subrange(q, q + len) =~= b1.subrange(q, q + len));
        }
    }
}

proof fn lemma_decode_from_shift(b1: Seq<u8>, b2: Seq<u8>, pos: int, m: ProtoModel)
    requires
        0 <= pos,
    ensures
        decode_from(b1 + b2, pos + b1.len(), m) == decode_from(b2, pos, m),
    decreases b2.len() - pos,
{
    if pos < b2.len() {
        lemma_field_at_shift(b1, b2, pos);
        lemma_field_at_advances(b2, pos);
        if let Some((f, q)) = field_at(b2, pos) {
            lemma_decode_from_shift(b1, b2, q, apply_field(m, f));
        }
    }
}

proof fn lemma_decode_from_prefix(b1: Seq<u8>, b2: Seq<u8>, pos: int, m: ProtoModel)
    requires
        0 <= pos <= b1.len(),
        decode_from(b1, pos, m) is Some,
    ensures
        decode_from(b1 + b2, pos, m) == decode_from(b1 + b2, b1.len() as int, decode_from(
            b1,
            pos,
            m,
        ).unwrap()),
    decreases b1.len() - pos,
{
    if pos < b1.len() {
        lemma_field_at_advances(b1, pos);
        lemma_field_at_prefix(b1, b2, pos);
        let (f, q) = field_at(b1, pos).unwrap();
        lemma_decode_from_prefix(b1, b2, q, apply_field(m, f));
    }
}

/// The fields of a message are read in turn: when `b1` decodes to `m1`,
/// decoding `b1` followed by `b2` gives what the fields of `b2` make of `m1`.
pub proof fn lemma_decode_concat(b1: Seq<u8>, b2: Seq<u8>)
    requires
        decode(b1) is Some,
    ensures
        decode(b1 + b2) == decode_from(b2, 0, decode(b1).unwrap()),
{
    lemma_decode_from_prefix(b1, b2, 0, default_model());
    lemma_decode_from_shift(b1, b2, 0, decode(b1).unwrap());
}

/// Two messages sent back to back decode as one, the later one winning:
/// each field that the second puts on the wire replaces the first's.
pub proof fn lemma_last_field_wins(m1: ProtoModel, m2: ProtoModel)
    requires
        vstd::utf8::encode_utf8(m1.publisher_id).len() <= u64::MAX,
        m1.payload matches Some(p) ==> p.len() <= u64::MAX,
        vstd::utf8::encode_utf8(m2.publisher_id).len() <= u64::MAX,
        m2.payload matches Some(p) ==> p.len() <= u64::MAX,
    ensures
        decode(encode(m1) + encode(m2)) == Some(merge(m1, m2)),
{
    lemma_decode_encode(m1);
    lemma_decode_concat(encode(m1), encode(m2));
    lemma_decode_encode_onto(m1, m2);
}

/// A field this schema does not know (number 5 and up), sent as a varint,
/// is skipped: appending one to a message changes nothing of what it decodes to.
pub proof fn lemma_unknown_field_skipped(b: Seq<u8>, field: u64, v: u64)
    requires
        decode(b) is Some,
        5 <= field,
        field * 8 <= u32::MAX,
    ensures
        decode(b + (encode_varint((field * 8) as nat) + encode_varint(v as nat))) == decode(b),
{
    let key = (field * 8) as u64;
    let ek = encode_varint(key as nat);
    let ev = encode_varint(v as nat);
    let f = ek + ev;
    lemma_u64_varint_len(key);
    lemma_u64_varint_len(v);
    assert(f.subrange(0, ek.len() as int) =~= ek);
    lemma_varint_read(f, 0, key);
    assert(f.subrange(ek.len() as int, (ek.len() + ev.len()) as int) =~= ev);
    lemma_varint_read(f, ek.len() as int, v);
    assert(key / 8 == field && key % 8 == 0);
    assert(field_at(f, 0) == Some((WireField::Unknown, f.len() as int)));
    let m1 = decode(b).unwrap();
    lemma_decode_step(f, 0, f.len() as int, WireField::Unknown, m1);
    assert(decode_from(f, 0, m1) == Some(m1));
    lemma_decode_concat(b, f);
    assert(encode_varint((field * 8) as nat) == ek);
}

/// The position-carrying form of an executable result.
pub open spec fn at_pos<T>(r: Option<(T, usize)>) -> Option<(T, int)> {
    match r {
        Some((v, e)) => Some((v, e as int)),
        None => None,
    }
}

fn read_varint_tail(b: &[u8], pos: usize, k: usize) -> (r: Option<(u64, usize)>)
    requires
        pos <= b@.len(),
        k <= 10,
    ensures
        match varint_tail(b@, pos as int, k as nat) {
            Some((v, e)) => if v <= u64::MAX {
                at_pos(r) == Some((v as u64, e))
            } else {
                r is None
            },
            None => r is None,
        },
    decreases 10 - k,
{
    proof {
        lemma_varint_tail_bounds(b@, pos as int, k as nat);
    }
    if k >= 10 || k >= b.len() - pos {
        return None;
    }
    let byte = b[pos + k];
    if byte < 128 {
        return Some((byte as u64, pos + k + 1));
    }
    proof {
        lemma_varint_tail_bounds(b@, pos as int, (k + 1) as nat);
    }
    match read_varint_tail(b, pos, k + 1) {
        None => None,
        Some((v, e)) => {
            let c = (byte - 128) as u64;
            if v > (u64::MAX - c) / 128 {
                None
            } else {
                Some((128 * v + c, e))
            }
        },
    }
}

fn read_varint(b: &[u8], pos: usize) -> (r: Option<(u64, usize)>)
    requires
        pos <= b@.len(),
    ensures
        at_pos(r) == varint_at(b@, pos as int),
        r matches Some((v, e)) ==> pos < e <= b@.len(),
{
    proof {
        lemma_varint_tail_bounds(b@, pos as int, 0);
    }
    read_varint_tail(b, pos, 0)
}

fn copy_bytes(b: &[u8], start: usize, end: usize) -> (v: Vec<u8>)
    requires
        start <= end <= b@.len(),
    ensures
        v@ == b@.subrange(start as int, end as int),
{
    let mut v: Vec<u8> = Vec::new();
    let mut i = start;
    while i < end
        invariant
            start <= i <= end <= b@.len(),
            v@ == b@.subrange(start as int, i as int),
        decreases end - i,
    {
        v.push(b[i]);
        i += 1;
        proof {
            assert(v@ =~= b@.subrange(start as int, i as int));
        }
    }
    v
}

/// Calls `String::from_utf8`: by its documentation it refuses exactly the
/// byte strings that are not valid UTF-8 and otherwise gives the string those
/// bytes encode.
#[verifier::external_body]
fn string_from_utf8(bytes: Vec<u8>) -> (r: Option<String>)
    ensures
        r is Some <==> valid_utf8(bytes@),
        r matches Some(s) ==> s@ == decode_utf8(bytes@),
{
    String::from_utf8(bytes).ok()
}

/// One field as read by the decoder.
enum ReadField {
    SeqNumber(u64),
    PublisherId(String),
    Timestamp(u64),
    Payload(Vec<u8>),
    Unknown,
}

impl ReadField {
    spec fn to_wire(self) -> WireField {
        match self {
            ReadField::SeqNumber(v) => WireField::SeqNumber(v),
            ReadField::PublisherId(s) => WireField::PublisherId(s@),
            ReadField::Timestamp(t) => WireField::Timestamp(t),
            ReadField::Payload(p) => WireField::Payload(p@),
            ReadField::Unknown => WireField::Unknown,
        }
    }
}

spec fn read_field_view(r: Option<(ReadField, usize)>) -> Option<(WireField, int)> {
    match r {
        Some((f, e)) => Some((f.to_wire(), e as int)),
        None => None,
    }
}

fn read_field(b: &[u8], pos: usize) -> (r: Option<(ReadField, usize)>)
    requires
        pos <= b@.len(),
    ensures
        read_field_view(r) == field_at(b@, pos as int),
        r matches Some((f, e)) ==> pos < e <= b@.len(),
{
    let (key, p) = match read_varint(b, pos) {
        None => {
            return None;
        },
        Some(kp) => kp,
    };
    let num = key / 8;
    let wire = key % 8;
    let known = 1 <= num && num <= 4;
    if key > 0xffff_ffff || num == 0 {
        return None;
    }
    if wire == 0 {
        match read_varint(b, p) {
            None => None,
            Some((v, q)) => {
                if num == 1 {
                    Some((ReadField::SeqNumber(v), q))
                } else if num == 3 {
                    Some((ReadField::Timestamp(v), q))
                } else if known {
                    None
                } else {
                    Some((ReadField::Unknown, q))
                }
            },
        }
    } else if wire == 2 {
        match read_varint(b, p) {
            None => None,
            Some((len, q)) => {
                let room = (b.len() - q) as u64;
                if len > room {
                    return None;
                }
                let end = q + len as usize;
                if num == 2 {
                    let data = copy_bytes(b, q, end);
                    match string_from_utf8(data) {
                        Some(s) => Some((ReadField::PublisherId(s), end)),
                        None => None,
                    }
                } else if num == 4 {
                    Some((ReadField::Payload(copy_bytes(b, q, end)), end))
                } else if known {
                    None
                } else {
                    Some((ReadField::Unknown, end))
                }
            },
        }
    } else if wire == 1 {
        if known || b.len() - p < 8 {
            None
        } else {
            Some((ReadField::Unknown, p + 8))
        }
    } else if wire == 5 {
        if known || b.len() - p < 4 {
            None
        } else {
            Some((ReadField::Unknown, p + 4))
        }
    } else {
        None
    }
}

pub open spec fn opt_model(r: Option<ProtoMessage>) -> Option<ProtoModel> {
    match r {
        Some(m) => Some(m@),
        None => None,
    }
}

/// Decodes a binary sequenced message; `None` when the bytes are not a
/// well-formed encoding of one.
pub fn decode_protobuf(b: &[u8]) -> (r: Option<ProtoMessage>)
    ensures
        opt_model(r) == decode(b@),
{
    let mut msg = ProtoMessage {
        seq: 0,
        publisher_id: String::new(),
        timestamp_ns: None,
        payload: None,
    };
    let mut pos: usize = 0;
    while pos < b.len()
        invariant
            pos <= b@.len(),
            decode_from(b@, pos as int, msg@) == decode(b@),
        decreases b@.len() - pos,
    {
        match read_field(b, pos) {
            None => {
                return None;
            },
            Some((f, q)) => {
                let ghost prev = msg@;
                match f {
                    ReadField::SeqNumber(v) => {
                        msg.seq = v;
                    },
                    ReadField::PublisherId(s) => {
                        msg.publisher_id = s;
                    },
                    ReadField::Timestamp(t) => {
                        msg.timestamp_ns = Some(t);
                    },
                    ReadField::Payload(p) => {
                        msg.payload = Some(p);
                    },
                    ReadField::Unknown => {},
                }
                proof {
                    assert(msg@ =~= apply_field(prev, f.to_wire()));
                }
                pos = q;
            },
        }
    }
    Some(msg)
}

} // verus!

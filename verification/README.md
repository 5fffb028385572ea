# zenoh-plugin-sequence-detector

A zenoh plugin that watches streams of sequence-numbered messages and reports,
per publisher, messages that arrive in sequence, duplicates, late
(out-of-order) messages and gaps, with periodic statistics.

- `src/` is the verified library:
  - `publisher.rs`: the per-publisher state machine (`PublisherState::process_sequence`)
    and the classification of each sequence number;
  - `history.rs`: laws about whole streams (counts, highest sequence number,
    gap accounting, in-order streams, resent messages);
  - `detector.rs`: the map from publisher id to state, message handling and
    statistics snapshots;
  - `proto.rs`: the binary (protobuf) message form, its decoder, and the
    round-trip law against the canonical encoding;
  - `config.rs`: reading the plugin options and judging configuration changes.
- `app/` is the plugin itself: zenoh session, subscriber, stats publisher,
  async tasks, JSON (serde) parsing and logging.
- `tests/` exercises the library on concrete values.

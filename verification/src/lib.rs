//! Detection of out-of-sequence, duplicate and missing messages in
//! per-publisher streams of sequence-numbered messages.
pub mod config;
pub mod detector;
pub mod history;
pub mod laws;
pub mod proto;
pub mod publisher;

pub use config::{
    config_checker, ConfigCheck, ConfigError, ConfigValue, PluginConfig, SequenceDetectorPlugin,
};
pub use detector::{
    validate_publisher_id, MessageError, SampleOutcome, SequenceDetector, SequencedMessage,
};
pub use publisher::{PublisherState, PublisherStats, SequenceStatus, Severity};
pub use proto::{decode_protobuf, ProtoMessage};

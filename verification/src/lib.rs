//! A flow telemetry engine: a bounds-checked packet classifier, the bounded
//! tables of counters it updates, the key and batch logic of a time-ordered
//! record store, and the analytics that turn a snapshot of the counters into
//! rates, rankings and breakdowns.

pub mod stats;
pub mod table;
pub mod packet;
pub mod classifier;
pub mod serializable_types;
pub mod text;
pub mod time;
pub mod records;
pub mod snapshot;
pub mod ranking;
pub mod flow_sums;
pub mod analytics;
pub mod storage_keys;
pub mod key_time;
pub mod listing;
pub mod storage;
pub mod key_order;
pub mod storage_laws;
pub mod scan_laws;
pub mod ipv4;
pub mod listener_config;
pub mod target_ip;
pub mod api;

//! An in-memory, indexed store for in-band network telemetry records.
//!
//! A record is a flow: a packet trajectory through an ordered sequence of
//! switches, each switch contributing a timestamped hop with telemetry
//! metrics. The store answers queries that combine path, time and metric
//! predicates, pruning candidates through a path-structural index and a
//! time-bucketed index and correcting them with an exact residual filter.

pub mod engine;
pub mod flow;
pub mod hop;
pub mod idmap;
pub mod laws;
pub mod metrics;
pub mod path;
pub mod planner;
pub mod path_index;
pub mod query;
pub mod strutil;
pub mod time_index;

pub use engine::EngineConfig;
pub use engine::StorageEngine;
pub use engine::StorageError;
pub use flow::Flow;
pub use flow::FlowError;
pub use flow::FlowInput;
pub use flow::FlowStatus;
pub use hop::Hop;
pub use hop::HopInput;
pub use path::NetworkPath;
pub use path_index::IndexStats;
pub use path_index::PathIndex;
pub use query::MetricCondition;
pub use query::PathCondition;
pub use query::QueryBuilder;
pub use query::QueryResult;
pub use query::TimeCondition;
pub use time_index::TimeIndex;
pub use time_index::TimeIndexStats;
pub use metrics::CustomEntry;
pub use metrics::TelemetryMetrics;

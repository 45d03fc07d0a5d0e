//! A small extract-load-query pipeline: a delimited-text parser, a
//! single-table store with its four query operations, the per-step
//! instrumentation and the step dispatcher.
pub mod delimited;
pub mod error;
pub mod metrics;
pub mod persist;
pub mod pipeline;
pub mod store;

pub use delimited::{parse_delimited, split_bytes, Delimited};
pub use error::{ErrorKind, EtlError};
pub use metrics::{build_report, memory_used_kb, track_memory_and_time, MemorySampler, StepReport};
pub use pipeline::{check_status, fetch_timeout, plan, Action, Run, Step, DEFAULT_TIMEOUT_SECS};
pub use store::{
    load, query_create, query_delete, query_read, query_update, render, Database, TableView,
};

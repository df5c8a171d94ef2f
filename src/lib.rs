//! Formats structured log events into single-line JSON records with
//! trace correlation identifiers.

pub mod datadog_ids;
pub mod event_sink;
pub mod fields;
pub mod formatting;
pub mod layer;
pub mod sorting;

pub use datadog_ids::{read_from_context, DatadogSpanId, DatadogTraceId, TraceContext};
pub use event_sink::{EventSink, StdoutSink};
pub use fields::{from_attributes, from_event, from_spans, FieldPair, FieldStore};
pub use formatting::{DatadogLog, LogLevel, Timestamp};
pub use layer::{build_log, timestamp_from_clock, DatadogFormattingLayer};
pub use sorting::sort_by_name;

//! Per-container resource accounting: cached accounting-file paths, perf table
//! schemas, and the lazy numeric aggregator used to render table fields.

pub mod buffer;
pub mod lazy_quantity;
pub mod record;
pub mod perf_table;
pub mod accounting;
pub mod cadence;

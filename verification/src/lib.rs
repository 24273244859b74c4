//! Response-side HTTP header transformation engine with metric-handle caching.
//!
//! A declarative rule set describes five ordered phases of header edits
//! (remove, rename, replace, add, append). The engine applies them to an
//! ordered collection of `(name, value)` header pairs and reports how many
//! edits each phase performed, so that the surrounding host glue can emit
//! one counter increment per applied edit and one latency sample per
//! invocation.

use vstd::prelude::*;

pub mod engine;
pub mod headers;
pub mod metrics;
pub mod rules;

pub use engine::PhaseCounts;
pub use engine::ResponseTransformerContext;
pub use headers::Header;
pub use headers::Headers;
pub use headers::HeaderView;
pub use metrics::MetricKey;
pub use metrics::MetricKeyView;
pub use metrics::MetricKind;
pub use metrics::Metrics;
pub use rules::Config;
pub use rules::KeyValuePair;
pub use rules::NameList;
pub use rules::PairList;

verus! {

/// The number of whole milliseconds between two instants given in
/// nanoseconds. Used for the `processing_time` histogram sample.
pub fn elapsed_millis(start_nanos: u64, end_nanos: u64) -> (r: u64)
    requires
        start_nanos <= end_nanos,
    ensures
        r == (end_nanos - start_nanos) / 1_000_000,
{
    (end_nanos - start_nanos) / 1_000_000
}

} // verus!

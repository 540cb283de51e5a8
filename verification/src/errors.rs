//! The library's own error values.
//!
//! Storage-layer and gateway failures arise outside the verified code and
//! travel through it as plain message strings; the variants here cover the
//! failures that the library itself detects.

use vstd::prelude::*;

verus! {

/// A failure detected by the library's own logic.
#[derive(Debug)]
pub enum AffinityError {
    /// A CPU index handed to `toggle_selection` lies at or beyond the
    /// machine's CPU count.
    SelectionOutOfBounds { cpu_id: usize, cpu_count: usize },
    /// A persisted CPU index cannot be represented as a bit position of the
    /// platform's native affinity mask.
    MalformedCpuIndex { value: i64 },
    /// A selected CPU index is too large for the persisted row format.
    SelectionTooLarge { cpu_id: usize },
    /// No per-user configuration directory could be determined.
    MissingConfigurationDirectory,
}

} // verus!

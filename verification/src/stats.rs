//! Device memory counters and static device properties, as reported by the
//! device allocator. Plain data carriers used for telemetry and capacity
//! planning by the surrounding engine.

use vstd::prelude::*;

verus! {

/// Byte counters of the device allocator: bytes currently held, the peak
/// since the counters were last reset, and the running totals of bytes
/// allocated and freed.
#[derive(Clone)]
pub struct Stats {
    pub current: i64,
    pub peak: i64,
    pub allocated: i64,
    pub freed: i64,
}

impl Default for Stats {
    /// All counters start at zero.
    fn default() -> (s: Stats)
        ensures
            s.current == 0 && s.peak == 0 && s.allocated == 0 && s.freed == 0,
    {
        Stats { current: 0, peak: 0, allocated: 0, freed: 0 }
    }
}

/// Static capability properties of one device: compute capability
/// major/minor, multiprocessor count, thread limit per multiprocessor,
/// and total device memory in bytes.
#[derive(Clone)]
pub struct CudaProps {
    pub major: i32,
    pub minor: i32,
    pub multi_processor_count: i32,
    pub max_threads_per_multi_processor: i32,
    pub total_memory: i64,
}

impl Default for CudaProps {
    /// All properties start at zero.
    fn default() -> (p: CudaProps)
        ensures
            p.major == 0 && p.minor == 0 && p.multi_processor_count == 0
                && p.max_threads_per_multi_processor == 0 && p.total_memory == 0,
    {
        CudaProps {
            major: 0,
            minor: 0,
            multi_processor_count: 0,
            max_threads_per_multi_processor: 0,
            total_memory: 0,
        }
    }
}

} // verus!

//! A description of the machine a report was made on.

use vstd::prelude::*;

verus! {

/// Architecture, parallelism and SIMD features of the machine; the host fills it in.
#[derive(Debug, Clone, Default)]
pub struct HardwareCapabilities {
    /// Target architecture name (`x86_64`, `aarch64`, ...).
    pub architecture: String,
    /// Worker threads available.
    pub num_cpus: usize,
    /// SIMD instruction sets detected.
    pub simd_features: Vec<String>,
}

} // verus!

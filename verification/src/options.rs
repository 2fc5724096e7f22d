//! The configuration snapshot that governs one flattening call.

use vstd::prelude::*;

verus! {

/// Options for controlling the flattening process. A snapshot is built once
/// per call and only read afterwards.
#[derive(Clone, Debug)]
pub struct FlattenOptions {
    /// Separator joining path segments into a flat key.
    pub separator: String,
    /// Upper bound on parallel workers for one bulk call.
    pub max_concurrency: usize,
    /// Nesting depth at which subtrees are serialized raw; zero disables the cutoff.
    pub max_depth: usize,
    /// Whether array elements get an index segment in their key.
    pub include_array_indices: bool,
    /// Whether arrays are descended into rather than serialized whole.
    pub expand_arrays: bool,
    /// Batch size for bounded-memory parallel processing.
    pub chunk_size: usize,
}

/// Relies on num_cpus::get: the number of logical CPUs, always at least one.
#[verifier::external_body]
fn cpu_count() -> (n: usize)
    ensures
        n >= 1,
{
    num_cpus::get()
}

impl Default for FlattenOptions {
    /// The defaults: dot separator, one worker per logical CPU, no depth
    /// cutoff, arrays expanded with indexed keys, chunks of ten thousand.
    fn default() -> (r: FlattenOptions)
        ensures
            r.separator@ == "."@,
            r.max_concurrency >= 1,
            r.max_depth == 0,
            r.include_array_indices,
            r.expand_arrays,
            r.chunk_size == 10000,
    {
        FlattenOptions {
            separator: ".".to_owned(),
            max_concurrency: cpu_count(),
            max_depth: 0,
            include_array_indices: true,
            expand_arrays: true,
            chunk_size: 10000,
        }
    }
}

} // verus!

//! One benchmark case.
use vstd::prelude::*;

use crate::config::{DataSize, FriConfig};

verus! {

/// One benchmark case: a validator count, a data size and an FRI configuration.
#[derive(Debug, Clone, Copy, PartialEq, Eq)]
pub struct Benchmark {
    pub num_of_validators: u32,
    pub data_sizes: DataSize,
    pub fri_options: FriConfig,
}

impl Benchmark {
    /// The case with the given parameters.
    pub fn new(num_of_validators: u32, data_sizes: &DataSize, fri_options: &FriConfig) -> (r: Self)
        ensures
            r.num_of_validators == num_of_validators,
            r.data_sizes == *data_sizes,
            r.fri_options == *fri_options,
    {
        Benchmark { num_of_validators, data_sizes: *data_sizes, fri_options: *fri_options }
    }
}

} // verus!

//! The rows of a benchmark report.
use vstd::prelude::*;

use crate::benchmark_calculation::PhaseTimingAndProofSize;
use crate::config::{DataSize, FriConfig};

verus! {

/// One report row: the parameters of a benchmark case and the statistics measured
/// for it (`None` where a statistic could not be measured).
#[derive(Debug, Clone, Copy)]
pub struct BenchmarkRecord {
    pub num_validators: u32,
    pub blowup_factor: usize,
    pub folding_factor: usize,
    pub max_remainder_degree: usize,
    pub data_height: usize,
    pub data_width: usize,
    pub propose_block_time_min: Option<u64>,
    pub propose_block_time_mean: Option<u64>,
    pub propose_block_time_max: Option<u64>,
    pub send_proposal_time_min: Option<u64>,
    pub send_proposal_time_mean: Option<u64>,
    pub send_proposal_time_max: Option<u64>,
    pub validate_proposal_time_min: Option<u64>,
    pub validate_proposal_time_mean: Option<u64>,
    pub validate_proposal_time_max: Option<u64>,
    pub send_signed_proposal_time_min: Option<u64>,
    pub send_signed_proposal_time_mean: Option<u64>,
    pub send_signed_proposal_time_max: Option<u64>,
    pub validate_signature_time_min: Option<u64>,
    pub validate_signature_time_mean: Option<u64>,
    pub validate_signature_time_max: Option<u64>,
    pub proposal_proof_size_min: Option<usize>,
    pub proposal_proof_size_mean: Option<usize>,
    pub proposal_proof_size_max: Option<usize>,
    pub receive_proposal_proof_size_min: Option<usize>,
    pub receive_proposal_proof_size_mean: Option<usize>,
    pub receive_proposal_proof_size_max: Option<usize>,
}

impl BenchmarkRecord {
    /// The report row of the case run with `num_validators` validators, the FRI
    /// configuration `fri_config` and the data size `data_size`, whose statistics
    /// are `timings`.
    pub fn new(
        num_validators: u32,
        fri_config: &FriConfig,
        data_size: &DataSize,
        timings: &PhaseTimingAndProofSize,
    ) -> (r: Self)
        ensures
            r.num_validators == num_validators,
            r.blowup_factor == fri_config.blowup_factor,
            r.folding_factor == fri_config.folding_factor,
            r.max_remainder_degree == fri_config.max_remainder_degree,
            r.data_height == data_size.height,
            r.data_width == data_size.width,
            r.propose_block_time_min == timings.propose_block_time.min_time,
            r.propose_block_time_mean == timings.propose_block_time.mean_time,
            r.propose_block_time_max == timings.propose_block_time.max_time,
            r.send_proposal_time_min == timings.send_proposal_time.min_time,
            r.send_proposal_time_mean == timings.send_proposal_time.mean_time,
            r.send_proposal_time_max == timings.send_proposal_time.max_time,
            r.validate_proposal_time_min == timings.validate_proposal_time.min_time,
            r.validate_proposal_time_mean == timings.validate_proposal_time.mean_time,
            r.validate_proposal_time_max == timings.validate_proposal_time.max_time,
            r.send_signed_proposal_time_min == timings.send_signed_proposal_time.min_time,
            r.send_signed_proposal_time_mean == timings.send_signed_proposal_time.mean_time,
            r.send_signed_proposal_time_max == timings.send_signed_proposal_time.max_time,
            r.validate_signature_time_min == timings.validate_signature_time.min_time,
            r.validate_signature_time_mean == timings.validate_signature_time.mean_time,
            r.validate_signature_time_max == timings.validate_signature_time.max_time,
            r.proposal_proof_size_min == timings.proposal_proof_size.min_proof_size,
            r.proposal_proof_size_mean == timings.proposal_proof_size.mean_proof_size,
            r.proposal_proof_size_max == timings.proposal_proof_size.max_proof_size,
            r.receive_proposal_proof_size_min == timings.receive_proposal_proof_size.min_proof_size,
            r.receive_proposal_proof_size_mean == timings.receive_proposal_proof_size.mean_proof_size,
            r.receive_proposal_proof_size_max == timings.receive_proposal_proof_size.max_proof_size,
    {
        BenchmarkRecord {
            num_validators,
            blowup_factor: fri_config.blowup_factor,
            folding_factor: fri_config.folding_factor,
            max_remainder_degree: fri_config.max_remainder_degree,
            data_height: data_size.height,
            data_width: data_size.width,
            propose_block_time_min: timings.propose_block_time.min_time,
            propose_block_time_mean: timings.propose_block_time.mean_time,
            propose_block_time_max: timings.propose_block_time.max_time,
            send_proposal_time_min: timings.send_proposal_time.min_time,
            send_proposal_time_mean: timings.send_proposal_time.mean_time,
            send_proposal_time_max: timings.send_proposal_time.max_time,
            validate_proposal_time_min: timings.validate_proposal_time.min_time,
            validate_proposal_time_mean: timings.validate_proposal_time.mean_time,
            validate_proposal_time_max: timings.validate_proposal_time.max_time,
            send_signed_proposal_time_min: timings.send_signed_proposal_time.min_time,
            send_signed_proposal_time_mean: timings.send_signed_proposal_time.mean_time,
            send_signed_proposal_time_max: timings.send_signed_proposal_time.max_time,
            validate_signature_time_min: timings.validate_signature_time.min_time,
            validate_signature_time_mean: timings.validate_signature_time.mean_time,
            validate_signature_time_max: timings.validate_signature_time.max_time,
            proposal_proof_size_min: timings.proposal_proof_size.min_proof_size,
            proposal_proof_size_mean: timings.proposal_proof_size.mean_proof_size,
            proposal_proof_size_max: timings.proposal_proof_size.max_proof_size,
            receive_proposal_proof_size_min: timings.receive_proposal_proof_size.min_proof_size,
            receive_proposal_proof_size_mean: timings.receive_proposal_proof_size.mean_proof_size,
            receive_proposal_proof_size_max: timings.receive_proposal_proof_size.max_proof_size,
        }
    }
}

} // verus!

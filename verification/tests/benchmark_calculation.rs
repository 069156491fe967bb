use std::collections::HashMap;

use frida_hotstuff::benchmark_calculation::{
    can_summarize, compare_and_update_benchmark_proof_size, compare_and_update_benchmark_timing, BenchmarkProofSize,
    BenchmarkTiming, PhaseTimingAndProofSize,
};
use frida_hotstuff::benchmark_handlers::BenchmarkMetrics;

fn sample_metrics() -> BenchmarkMetrics {
    BenchmarkMetrics {
        start_view_time: vec![1, 2, 3],
        propose_time: vec![4, 5, 6],
        receive_proposal_time: vec![8, 10, 23],
        phase_vote_time: vec![24, 25, 26],
        receive_phase_vote_time: vec![27, 28, 29],
        collect_pc_time: vec![30, 31, 32],
        proposal_proof_size: vec![33, 34, 35],
        receive_proposal_proof_size: vec![8, 9, 10],
    }
}

#[test]
fn test_benchmark_timing() {
    let froms = vec![1, 2, 3];
    let tos = vec![4, 5, 6];
    let benchmark_timing = BenchmarkTiming::calculate_timings(froms, tos);
    assert_eq!(benchmark_timing.min_time.unwrap(), 3);
    assert_eq!(benchmark_timing.mean_time.unwrap(), 3);
    assert_eq!(benchmark_timing.max_time.unwrap(), 5);
}

#[test]
fn test_benchmark_proof_size() {
    let proof_sizes = vec![1, 2, 3];
    let benchmark_proof_size = BenchmarkProofSize::calculate_proof_size(proof_sizes);
    assert_eq!(benchmark_proof_size.min_proof_size.unwrap(), 1);
    assert_eq!(benchmark_proof_size.mean_proof_size.unwrap(), 2);
    assert_eq!(benchmark_proof_size.max_proof_size.unwrap(), 3);
}

#[test]
fn test_compare_and_update_benchmark_timing() {
    let mut benchmark_timing = BenchmarkTiming::new_empty();
    let new_benchmark_timing = BenchmarkTiming::new(1, 1, 1);

    compare_and_update_benchmark_timing(&mut benchmark_timing, new_benchmark_timing);

    assert_eq!(benchmark_timing.min_time.unwrap(), 1);
    assert_eq!(benchmark_timing.mean_time.unwrap(), 1);
    assert_eq!(benchmark_timing.max_time.unwrap(), 1);

    let new_benchmark_timing = BenchmarkTiming::new(2, 2, 2);
    compare_and_update_benchmark_timing(&mut benchmark_timing, new_benchmark_timing);

    assert_eq!(benchmark_timing.min_time.unwrap(), 1);
    assert_eq!(benchmark_timing.mean_time.unwrap(), 1);
    assert_eq!(benchmark_timing.max_time.unwrap(), 2);
}

#[test]
fn test_compare_and_update_benchmark_proof_size() {
    let mut benchmark_proof_size = BenchmarkProofSize::new_empty();
    let new_benchmark_proof_size = BenchmarkProofSize::new(1, 1, 1);

    compare_and_update_benchmark_proof_size(&mut benchmark_proof_size, new_benchmark_proof_size);

    assert_eq!(benchmark_proof_size.min_proof_size.unwrap(), 1);
    assert_eq!(benchmark_proof_size.mean_proof_size.unwrap(), 1);
    assert_eq!(benchmark_proof_size.max_proof_size.unwrap(), 1);

    let new_benchmark_proof_size = BenchmarkProofSize::new(2, 2, 2);
    compare_and_update_benchmark_proof_size(&mut benchmark_proof_size, new_benchmark_proof_size);

    assert_eq!(benchmark_proof_size.min_proof_size.unwrap(), 1);
    assert_eq!(benchmark_proof_size.mean_proof_size.unwrap(), 1);
    assert_eq!(benchmark_proof_size.max_proof_size.unwrap(), 2);
}

#[test]
fn test_calculate_phase_timing_proof_size() {
    let phase_timing_proof_size = PhaseTimingAndProofSize::calculate_phase_timing_proof_size(sample_metrics());

    assert_eq!(phase_timing_proof_size.propose_block_time.min_time.unwrap(), 3);
    assert_eq!(phase_timing_proof_size.propose_block_time.mean_time.unwrap(), 3);
    assert_eq!(phase_timing_proof_size.propose_block_time.max_time.unwrap(), 5);

    assert_eq!(phase_timing_proof_size.send_proposal_time.min_time.unwrap(), 4);
    assert_eq!(phase_timing_proof_size.send_proposal_time.mean_time.unwrap(), 8);
    assert_eq!(phase_timing_proof_size.send_proposal_time.max_time.unwrap(), 19);

    assert_eq!(phase_timing_proof_size.validate_proposal_time.min_time.unwrap(), 16);
    assert_eq!(phase_timing_proof_size.validate_proposal_time.mean_time.unwrap(), 12);
    assert_eq!(phase_timing_proof_size.validate_proposal_time.max_time.unwrap(), 18);

    assert_eq!(phase_timing_proof_size.send_signed_proposal_time.min_time.unwrap(), 3);
    assert_eq!(phase_timing_proof_size.send_signed_proposal_time.mean_time.unwrap(), 3);
    assert_eq!(phase_timing_proof_size.send_signed_proposal_time.max_time.unwrap(), 5);

    assert_eq!(phase_timing_proof_size.validate_signature_time.min_time.unwrap(), 3);
    assert_eq!(phase_timing_proof_size.validate_signature_time.mean_time.unwrap(), 3);
    assert_eq!(phase_timing_proof_size.validate_signature_time.max_time.unwrap(), 5);

    assert_eq!(phase_timing_proof_size.proposal_proof_size.min_proof_size.unwrap(), 33);
    assert_eq!(phase_timing_proof_size.proposal_proof_size.mean_proof_size.unwrap(), 34);
    assert_eq!(phase_timing_proof_size.proposal_proof_size.max_proof_size.unwrap(), 35);

    assert_eq!(phase_timing_proof_size.receive_proposal_proof_size.min_proof_size.unwrap(), 8);
    assert_eq!(phase_timing_proof_size.receive_proposal_proof_size.mean_proof_size.unwrap(), 9);
    assert_eq!(phase_timing_proof_size.receive_proposal_proof_size.max_proof_size.unwrap(), 10);
}

#[test]
fn test_get_min_max_mean_from_all_benchmark_metrics() {
    let mut all_metrics = HashMap::new();
    all_metrics.insert(1, BenchmarkMetrics::new());
    all_metrics.insert(2, sample_metrics());

    let metrics = PhaseTimingAndProofSize::get_min_max_mean_from_all_benchmark_metrics(all_metrics);

    assert_eq!(metrics.propose_block_time.min_time.unwrap(), 0);
    assert_eq!(metrics.propose_block_time.mean_time.unwrap(), 1);
    assert_eq!(metrics.propose_block_time.max_time.unwrap(), 5);

    assert_eq!(metrics.send_proposal_time.min_time.unwrap(), 0);
    assert_eq!(metrics.send_proposal_time.mean_time.unwrap(), 4);
    assert_eq!(metrics.send_proposal_time.max_time.unwrap(), 19);

    assert_eq!(metrics.validate_proposal_time.min_time.unwrap(), 0);
    assert_eq!(metrics.validate_proposal_time.mean_time.unwrap(), 6);
    assert_eq!(metrics.validate_proposal_time.max_time.unwrap(), 18);

    assert_eq!(metrics.send_signed_proposal_time.min_time.unwrap(), 0);
    assert_eq!(metrics.send_signed_proposal_time.mean_time.unwrap(), 1);
    assert_eq!(metrics.send_signed_proposal_time.max_time.unwrap(), 5);

    assert_eq!(metrics.validate_signature_time.min_time.unwrap(), 0);
    assert_eq!(metrics.validate_signature_time.mean_time.unwrap(), 1);
    assert_eq!(metrics.validate_signature_time.max_time.unwrap(), 5);

    assert_eq!(metrics.proposal_proof_size.min_proof_size.unwrap(), 0);
    assert_eq!(metrics.proposal_proof_size.mean_proof_size.unwrap(), 17);
    assert_eq!(metrics.proposal_proof_size.max_proof_size.unwrap(), 35);

    assert_eq!(metrics.receive_proposal_proof_size.min_proof_size.unwrap(), 0);
    assert_eq!(metrics.receive_proposal_proof_size.mean_proof_size.unwrap(), 4);
    assert_eq!(metrics.receive_proposal_proof_size.max_proof_size.unwrap(), 10);
}

#[test]
fn merging_two_timings_averages_their_means() {
    let mut timing = BenchmarkTiming::new(10, 10, 10);
    compare_and_update_benchmark_timing(&mut timing, BenchmarkTiming::new(4, 5, 20));
    assert_eq!(timing.min_time, Some(4));
    assert_eq!(timing.mean_time, Some(7));
    assert_eq!(timing.max_time, Some(20));
    let mut large = BenchmarkTiming::new(u64::MAX, u64::MAX, u64::MAX);
    compare_and_update_benchmark_timing(&mut large, BenchmarkTiming::new(1, u64::MAX - 1, 1));
    assert_eq!(large.mean_time, Some(u64::MAX - 1));
    let mut size = BenchmarkProofSize::new(3, usize::MAX, 3);
    compare_and_update_benchmark_proof_size(&mut size, BenchmarkProofSize::new(3, usize::MAX, 3));
    assert_eq!(size.mean_proof_size, Some(usize::MAX));
}

/// A view whose only non-zero phase is the proposal, taking `d` milliseconds.
fn view_with_proposal_taking(d: u64) -> BenchmarkMetrics {
    BenchmarkMetrics {
        start_view_time: vec![100],
        propose_time: vec![100 + d],
        receive_proposal_time: vec![100 + d],
        phase_vote_time: vec![100 + d],
        receive_phase_vote_time: vec![100 + d],
        collect_pc_time: vec![100 + d],
        proposal_proof_size: vec![],
        receive_proposal_proof_size: vec![],
    }
}

#[test]
fn mean_across_views_is_the_mean_of_their_means() {
    let mut all_metrics = HashMap::new();
    all_metrics.insert(1, view_with_proposal_taking(0));
    all_metrics.insert(2, view_with_proposal_taking(0));
    all_metrics.insert(3, view_with_proposal_taking(12));
    let summary = PhaseTimingAndProofSize::get_min_max_mean_from_all_benchmark_metrics(all_metrics);
    assert_eq!(summary.propose_block_time.min_time, Some(0));
    assert_eq!(summary.propose_block_time.mean_time, Some(4));
    assert_eq!(summary.propose_block_time.max_time, Some(12));
    assert_eq!(summary.send_proposal_time.mean_time, Some(0));
    assert_eq!(summary.proposal_proof_size.mean_proof_size, Some(0));
}

#[test]
fn summary_of_no_view_is_empty() {
    let summary = PhaseTimingAndProofSize::get_min_max_mean_from_all_benchmark_metrics(HashMap::new());
    assert_eq!(summary.propose_block_time.min_time, None);
    assert_eq!(summary.propose_block_time.mean_time, None);
    assert_eq!(summary.receive_proposal_proof_size.max_proof_size, None);
}

#[test]
fn one_view_with_a_large_mean_is_summarized() {
    let mut all_metrics = HashMap::new();
    let mut m = view_with_proposal_taking(0);
    m.proposal_proof_size = vec![usize::MAX - 1];
    assert!(can_summarize(&m));
    all_metrics.insert(5, m);
    let summary = PhaseTimingAndProofSize::get_min_max_mean_from_all_benchmark_metrics(all_metrics);
    assert_eq!(summary.proposal_proof_size.mean_proof_size, Some(usize::MAX - 1));
    assert_eq!(summary.proposal_proof_size.max_proof_size, Some(usize::MAX - 1));
}

#[test]
fn no_proof_sizes_give_zeros() {
    let size = BenchmarkProofSize::calculate_proof_size(vec![]);
    assert_eq!(size.min_proof_size, Some(0));
    assert_eq!(size.mean_proof_size, Some(0));
    assert_eq!(size.max_proof_size, Some(0));
}

#[test]
fn summary_of_one_view_is_that_view() {
    let mut all_metrics = HashMap::new();
    all_metrics.insert(7, sample_metrics());
    let summary = PhaseTimingAndProofSize::get_min_max_mean_from_all_benchmark_metrics(all_metrics);
    assert_eq!(summary.send_proposal_time.mean_time, Some(8));
    assert_eq!(summary.validate_proposal_time.min_time, Some(16));
    assert_eq!(summary.proposal_proof_size.max_proof_size, Some(35));
}

#[test]
fn views_that_can_be_summarized() {
    assert!(can_summarize(&sample_metrics()));
    assert!(can_summarize(&BenchmarkMetrics::new()));
    let mut backwards = sample_metrics();
    backwards.propose_time = vec![0, 0, 0];
    assert!(!can_summarize(&backwards));
    let mut huge = sample_metrics();
    huge.proposal_proof_size = vec![usize::MAX, 1];
    assert!(!can_summarize(&huge));
}

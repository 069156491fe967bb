use frida_hotstuff::benchmark_handlers::{BenchmarkMetrics, LatencyStats, ViewTimingBounds, ViewTimingStats};
use frida_hotstuff::benchmark_process;
use frida_hotstuff::config::{BenchmarkConfig, DataSize, FriConfig, OutputFiles};
use frida_hotstuff::process::Benchmark;
use frida_hotstuff::proof_statistics::{defrida_proof_calculation, ViewProofSizes};
use frida_hotstuff::stats::{max_u64, max_usize, min_u64, min_usize, sum_u64, sum_usize};
use frida_hotstuff::benchmark_calculation::{BenchmarkProofSize, BenchmarkTiming, PhaseTimingAndProofSize};
use frida_hotstuff::reporting::BenchmarkRecord;
use frida_hotstuff::benchmark_handlers::{event_named, timestamps_for_event, ConsensusEvent};
use frida_hotstuff::side_network::ProofStore;
use frida_hotstuff::validation::{block_valid, check_block_data, BlockCheck, ProofReply};

fn fri(blowup_factor: usize) -> FriConfig {
    FriConfig { blowup_factor, folding_factor: 2, max_remainder_degree: 7 }
}

fn config() -> BenchmarkConfig {
    BenchmarkConfig {
        num_of_validators: vec![4, 10],
        data_sizes: vec![DataSize { height: 10, width: 100 }, DataSize { height: 20, width: 50 }],
        fri_options: vec![fri(2), fri(4), fri(8)],
        output_files: OutputFiles {
            frida_benchmark: String::from("frida.csv"),
            defrida_benchmark: String::from("defrida.csv"),
        },
    }
}

#[test]
fn campaign_has_one_case_per_combination() {
    let c = config();
    let cases = c.benchmarks();
    assert_eq!(cases.len(), 12);
    assert_eq!(cases[0], Benchmark::new(4, &c.data_sizes[0], &c.fri_options[0]));
    assert_eq!(cases[1], Benchmark::new(4, &c.data_sizes[1], &c.fri_options[0]));
    assert_eq!(cases[2], Benchmark::new(4, &c.data_sizes[0], &c.fri_options[1]));
    assert_eq!(cases[11], Benchmark::new(10, &c.data_sizes[1], &c.fri_options[2]));
}

#[test]
fn campaign_without_fri_options_has_no_case() {
    let mut c = config();
    c.fri_options = vec![];
    assert!(c.benchmarks().is_empty());
}

#[test]
fn campaign_lists_as_pairs() {
    let plan = config().to_benchmark();
    assert_eq!(plan.num_of_validators, vec![4, 10]);
    assert_eq!(plan.data_sizes, vec![(10, 100), (20, 50)]);
    assert_eq!(plan.fri_options, vec![fri(2), fri(4), fri(8)]);
    let copy = benchmark_process::Benchmark::new(&plan.num_of_validators, &plan.data_sizes, &plan.fri_options);
    assert_eq!(copy.data_sizes, plan.data_sizes);
}

#[test]
fn proof_statistics_over_views() {
    let store = vec![
        ViewProofSizes { view: 1, proof_sizes: vec![10, 20] },
        ViewProofSizes { view: 2, proof_sizes: vec![5] },
        ViewProofSizes { view: 1, proof_sizes: vec![7, 9] },
    ];
    let stats = defrida_proof_calculation(&store);
    assert_eq!(stats.min_proof_size, 5);
    assert_eq!(stats.max_proof_size, 20);
    assert_eq!(stats.mean_proof_size, 51 / 5);
    assert_eq!(stats.total_individual_proofs, 5);
    assert_eq!(stats.total_views, 2);
    // View 1's total is replaced by its later proposal's total (16), view 2 gives 5.
    assert_eq!(stats.total_size, 21);
    assert_eq!(stats.average_size_per_view, 10);
}

#[test]
fn proof_statistics_of_an_empty_store() {
    let stats = defrida_proof_calculation(&vec![]);
    assert_eq!(stats.min_proof_size, 0);
    assert_eq!(stats.max_proof_size, 0);
    assert_eq!(stats.mean_proof_size, 0);
    assert_eq!(stats.total_individual_proofs, 0);
    assert_eq!(stats.total_views, 0);
    assert_eq!(stats.total_size, 0);
    assert_eq!(stats.average_size_per_view, 0);
}

#[test]
fn latency_statistics_of_one_event() {
    let stats = LatencyStats::from_timestamps(String::from("propose"), vec![vec![9, 1], vec![], vec![4, 6]]).unwrap();
    assert_eq!(stats.event_type, "propose");
    assert_eq!(stats.count, 4);
    assert_eq!(stats.min, 1);
    assert_eq!(stats.max, 9);
    assert_eq!(stats.mean, 5);
    assert_eq!(stats.median, 5);
    assert_eq!(stats.all_timestamps, vec![1, 4, 6, 9]);
    let odd = LatencyStats::from_timestamps(String::from("vote"), vec![vec![3, 8, 1]]).unwrap();
    assert_eq!(odd.median, 3);
    assert!(LatencyStats::from_timestamps(String::from("none"), vec![]).is_none());
}

#[test]
fn timing_bounds_and_counts_of_a_view() {
    let mut m = BenchmarkMetrics::new();
    assert!(m.if_any_empty());
    m.start_view_time = vec![5, 3];
    m.propose_time = vec![7];
    m.receive_proposal_time = vec![9, 12, 8];
    m.phase_vote_time = vec![13];
    m.receive_phase_vote_time = vec![14];
    m.collect_pc_time = vec![20];
    assert!(!m.if_any_empty());
    let bounds = ViewTimingBounds::from_metrics(3, &m);
    assert_eq!(bounds.view, 3);
    assert_eq!(bounds.start_view_bounds, Some((3, 5)));
    assert_eq!(bounds.receive_proposal_bounds, Some((8, 12)));
    let stats = ViewTimingStats::from_metrics(3, m.clone());
    assert_eq!(stats.start_view_count, 2);
    assert_eq!(stats.receive_proposal_count, 3);
    assert_eq!(stats.propose_timestamps, vec![7]);
    m.collect_pc_time = vec![];
    assert!(m.if_any_empty());
    assert_eq!(ViewTimingBounds::from_metrics(3, &m).collect_pc_bounds, None);
}

#[test]
fn simple_statistics() {
    assert_eq!(min_u64(&[4, 2, 9]), 2);
    assert_eq!(max_u64(&[4, 2, 9]), 9);
    assert_eq!(sum_u64(&[4, 2, 9]), 15);
    assert_eq!(min_u64(&[]), 0);
    assert_eq!(min_usize(&[7, 3]), 3);
    assert_eq!(max_usize(&[7, 3]), 7);
    assert_eq!(sum_usize(&[]), 0);
}

#[test]
fn report_row_of_a_case() {
    let timings = PhaseTimingAndProofSize::new(
        BenchmarkTiming::new(1, 2, 3),
        BenchmarkTiming::new_empty(),
        BenchmarkTiming::new(4, 5, 6),
        BenchmarkTiming::new(7, 8, 9),
        BenchmarkTiming::new(10, 11, 12),
        BenchmarkProofSize::new(13, 14, 15),
        BenchmarkProofSize::new_empty(),
    );
    let record = BenchmarkRecord::new(7, &fri(4), &DataSize { height: 20, width: 50 }, &timings);
    assert_eq!(record.num_validators, 7);
    assert_eq!(record.blowup_factor, 4);
    assert_eq!(record.folding_factor, 2);
    assert_eq!(record.max_remainder_degree, 7);
    assert_eq!(record.data_height, 20);
    assert_eq!(record.data_width, 50);
    assert_eq!(record.propose_block_time_mean, Some(2));
    assert_eq!(record.send_proposal_time_min, None);
    assert_eq!(record.validate_signature_time_max, Some(12));
    assert_eq!(record.proposal_proof_size_max, Some(15));
    assert_eq!(record.receive_proposal_proof_size_min, None);
}

#[test]
fn events_are_recorded_per_kind() {
    let mut m = BenchmarkMetrics::new();
    m.record_time(ConsensusEvent::Propose, 12);
    m.record_time(ConsensusEvent::Propose, 15);
    m.record_time(ConsensusEvent::CollectPc, 30);
    m.record_proposal_size(false, 100);
    m.record_proposal_size(true, 90);
    assert_eq!(m.propose_time, vec![12, 15]);
    assert_eq!(m.collect_pc_time, vec![30]);
    assert!(m.start_view_time.is_empty());
    assert_eq!(m.proposal_proof_size, vec![100]);
    assert_eq!(m.receive_proposal_proof_size, vec![90]);

    let mut other = BenchmarkMetrics::new();
    other.record_time(ConsensusEvent::CollectPc, 44);
    let entries = vec![(1u64, m), (2u64, other)];
    assert_eq!(timestamps_for_event(&entries, ConsensusEvent::Propose), vec![(1, vec![12, 15])]);
    assert_eq!(
        timestamps_for_event(&entries, ConsensusEvent::CollectPc),
        vec![(1, vec![30]), (2, vec![44])]
    );
    assert!(timestamps_for_event(&entries, ConsensusEvent::PhaseVote).is_empty());
}

#[test]
fn side_network_gives_back_stored_proofs() {
    let mut store: ProofStore<String> = ProofStore::new();
    let hash = vec![7u8; 32];
    let alice = vec![1u8; 32];
    let bob = vec![2u8; 32];
    assert_eq!(store.lookup(3, &hash, &alice), None);
    store.store(3, hash.clone(), alice.clone(), String::from("p-alice"));
    store.store(3, hash.clone(), bob.clone(), String::from("p-bob"));
    store.store(4, hash.clone(), alice.clone(), String::from("p-alice-4"));
    assert_eq!(store.lookup(3, &hash, &alice), Some(&String::from("p-alice")));
    assert_eq!(store.lookup(3, &hash, &bob), Some(&String::from("p-bob")));
    assert_eq!(store.lookup(4, &hash, &bob), None);
    assert_eq!(store.lookup(3, &vec![8u8; 32], &alice), None);
    store.store(3, hash.clone(), alice.clone(), String::from("p-alice-new"));
    assert_eq!(store.lookup(3, &hash, &alice), Some(&String::from("p-alice-new")));
    let proposals = store.proposals();
    assert_eq!(proposals.len(), 2);
    assert_eq!(proposals[0].proofs.len(), 2);
    assert_eq!(proposals[1].view, 4);
}

#[test]
fn block_validation_decisions() {
    assert_eq!(check_block_data(0, None), BlockCheck::Accept);
    assert_eq!(check_block_data(10, None), BlockCheck::Reject);
    assert_eq!(check_block_data(10, Some(6)), BlockCheck::RequestProof { view: 6 });
    assert!(block_valid(ProofReply::Proof { verified: true }));
    assert!(!block_valid(ProofReply::Proof { verified: false }));
    assert!(!block_valid(ProofReply::NoProof));
    assert!(!block_valid(ProofReply::Failed));
}

#[test]
fn latency_statistics_by_event_name() {
    let mut a = BenchmarkMetrics::new();
    a.record_time(ConsensusEvent::PhaseVote, 20);
    a.record_time(ConsensusEvent::PhaseVote, 10);
    let mut b = BenchmarkMetrics::new();
    b.record_time(ConsensusEvent::PhaseVote, 40);
    b.record_time(ConsensusEvent::StartView, 1);
    let entries = vec![(1u64, a), (2u64, b)];
    let stats = LatencyStats::for_event(&entries, &String::from("phase_vote")).unwrap();
    assert_eq!(stats.event_type, "phase_vote");
    assert_eq!(stats.all_timestamps, vec![10, 20, 40]);
    assert_eq!(stats.median, 20);
    assert_eq!(stats.mean, 23);
    assert!(LatencyStats::for_event(&entries, &String::from("collect_pc")).is_none());
    assert!(LatencyStats::for_event(&entries, &String::from("no_such_event")).is_none());
    assert_eq!(event_named(&String::from("receive_phase_vote")), Some(ConsensusEvent::ReceivePhaseVote));
    assert_eq!(event_named(&String::from("start_view")), Some(ConsensusEvent::StartView));
    assert_eq!(event_named(&String::from("Propose")), None);
}

#[test]
fn report_groups_pair_validator_counts_with_fri_options() {
    let plan = config().to_benchmark();
    let groups = plan.report_groups();
    assert_eq!(groups, vec![(4, fri(2)), (4, fri(4)), (4, fri(8)), (10, fri(2)), (10, fri(4)), (10, fri(8))]);
}

#[test]
fn side_network_reads_survive_other_stores() {
    let mut store: ProofStore<u32> = ProofStore::new();
    let hash = vec![9u8; 32];
    let me = vec![1u8; 32];
    store.store(1, hash.clone(), me.clone(), 11);
    for v in 2..6u64 {
        store.store(v, hash.clone(), me.clone(), v as u32);
        store.store(1, hash.clone(), vec![v as u8; 32], 0);
    }
    assert_eq!(store.lookup(1, &hash, &me), Some(&11));
    assert_eq!(store.lookup(9, &hash, &me), None);
}

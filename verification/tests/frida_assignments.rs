use std::collections::HashSet;

use winter_fri::FriOptions;

use frida_hotstuff::frida_proofs::{
    assign_validator_positions, compute_case_a_assignments, compute_case_b_assignments,
    compute_position_assignments, distribution_thresholds, generate_deterministic_positions,
    proof_requests, DistributionError,
};

#[test]
fn test_case_a_example_from_algorithm() {
    let positions = vec![0, 1, 2, 3, 4, 5, 6, 7];
    let n = 4;
    let s = 8;
    let _f = 1;
    let h = 2;

    let assignments = compute_case_a_assignments(n, s, h, &positions);

    assert_eq!(assignments.len(), 4);
    assert_eq!(assignments[0], vec![0, 1, 2, 3, 4, 5, 6]);
    assert_eq!(assignments[1], vec![1, 2, 3, 4, 5, 6, 7]);
    assert_eq!(assignments[2], vec![2, 3, 4, 5, 6, 7, 0]);
    assert_eq!(assignments[3], vec![3, 4, 5, 6, 7, 0, 1]);

    for i in 0..n {
        for j in i + 1..n {
            let union: HashSet<_> = assignments[i].iter().chain(assignments[j].iter()).cloned().collect();
            assert_eq!(union.len(), 8);
        }
    }
}

#[test]
fn test_case_b_example_from_algorithm() {
    let positions = vec![0, 1, 2, 3, 4, 5, 6, 7];
    let n = 17;
    let s = 8;
    let _f = 5;
    let h = 6;

    let assignments = compute_case_b_assignments(n, s, h, &positions);

    assert_eq!(assignments.len(), 17);
    for i in 0..16 {
        assert!(!assignments[i].is_empty());
    }
    assert!(assignments[16].is_empty());
    assert_eq!(assignments[0], assignments[8]);
    assert_eq!(assignments[1], assignments[9]);
}

#[test]
fn test_coverage_property_general() {
    let test_cases = vec![(4, 8), (6, 10), (15, 8), (20, 5)];

    for (n, s) in test_cases {
        println!("Testing n={}, s={}", n, s);
        let positions: Vec<usize> = (0..s).collect();
        let f = (n - 1) / 3;
        let h = f + 1;

        let assignments = compute_position_assignments(n, &positions, f, h);

        let non_empty_indices: Vec<usize> = assignments
            .iter()
            .enumerate()
            .filter(|(_, pos)| !pos.is_empty())
            .map(|(i, _)| i)
            .collect();

        if non_empty_indices.len() >= h {
            let test_indices = &non_empty_indices[0..h];
            let union: HashSet<_> = test_indices.iter().flat_map(|&i| assignments[i].iter()).cloned().collect();
            assert_eq!(union.len(), s, "Coverage property failed for n={}, s={}", n, s);
        }
    }
}

#[test]
fn case_a_span_is_whole_domain_when_h_at_least_s() {
    let positions = vec![3, 5, 9];
    let assignments = compute_case_a_assignments(2, 3, 3, &positions);
    assert_eq!(assignments, vec![vec![3, 5, 9], vec![5, 9, 3]]);
}

#[test]
fn case_b_threshold_and_spans() {
    // n = 17, s = 8, h = 6: adjusted threshold ceil((6 - 1) / 2) = 3, span 6.
    let positions: Vec<usize> = (0..8).collect();
    let assignments = compute_case_b_assignments(17, 8, 6, &positions);
    assert_eq!(assignments[0], vec![0, 1, 2, 3, 4, 5]);
    assert_eq!(assignments[7], vec![7, 0, 1, 2, 3, 4]);
}

#[test]
fn any_h_validators_cover_all_positions() {
    // Law: in case B with few validators left without positions, every h
    // validators together hold every position.
    let positions: Vec<usize> = (0..5).collect();
    let n = 11;
    let h = (n - 1) / 3 + 1;
    let assignments = compute_position_assignments(n, &positions, h - 1, h);
    for a in 0..n {
        for b in (a + 1)..n {
            for c in (b + 1)..n {
                for d in (c + 1)..n {
                    let union: HashSet<usize> = [a, b, c, d]
                        .iter()
                        .flat_map(|&i| assignments[i].iter())
                        .cloned()
                        .collect();
                    assert_eq!(union.len(), 5);
                }
            }
        }
    }
}

#[test]
fn deterministic_positions_are_evenly_spaced() {
    let options = FriOptions::new(8, 2, 7);
    assert_eq!(generate_deterministic_positions(32, 4, &options), vec![0, 8, 16, 24]);
    assert_eq!(generate_deterministic_positions(4, 10, &options), vec![0, 1, 2, 3]);
    assert_eq!(generate_deterministic_positions(10, 3, &options), vec![0, 3, 6]);
}

#[test]
fn thresholds_of_a_distribution() {
    assert_eq!(distribution_thresholds(4, 8), Ok((1, 2)));
    assert_eq!(distribution_thresholds(10, 8), Ok((3, 4)));
    assert_eq!(distribution_thresholds(1, 1), Ok((0, 1)));
}

#[test]
fn distribution_refuses_no_validators_or_no_queries() {
    assert_eq!(distribution_thresholds(0, 8), Err(DistributionError::BadNumQueries(0)));
    assert_eq!(distribution_thresholds(4, 0), Err(DistributionError::BadNumQueries(0)));
}

#[test]
fn validator_positions_over_the_domain() {
    // 4 validators, 8 queries in a domain of 64: positions 0, 8, ..., 56, h = 2.
    let assignments = assign_validator_positions(4, 8, 64, &FriOptions::new(2, 2, 1));
    assert_eq!(assignments.len(), 4);
    assert_eq!(assignments[0], vec![0, 8, 16, 24, 32, 40, 48]);
    assert_eq!(assignments[3], vec![24, 32, 40, 48, 56, 0, 8]);
}

#[test]
fn proof_plan_shares_equal_position_sets() {
    let positions = vec![vec![1, 2, 3], vec![], vec![3, 1, 2], vec![4], vec![1, 2, 3]];
    assert_eq!(proof_requests(&positions), vec![Some(0), None, Some(0), Some(3), Some(0)]);
}

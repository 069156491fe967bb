use std::collections::HashSet;

use frida_hotstuff::defrida_proofs::compute_position_assignments;
use frida_hotstuff::defrida_proofs::{proof_assignments, DefridaError};

/// The union of any `h` consecutive non-empty assignments holds every query.
fn check_coverage(assignments: &[Vec<usize>], h: usize, total_queries: usize) {
    let non_empty_assignments: Vec<_> = assignments.iter().filter(|a| !a.is_empty()).collect();
    if non_empty_assignments.len() < h {
        return;
    }
    for i in 0..=(non_empty_assignments.len() - h) {
        let mut union_of_queries = HashSet::new();
        for j in 0..h {
            for &pos in non_empty_assignments[i + j] {
                union_of_queries.insert(pos);
            }
        }
        assert_eq!(
            union_of_queries.len(),
            total_queries,
            "Coverage failed for a window of h={} assignments starting at index {}",
            h,
            i
        );
    }
}

#[test]
fn case_a_spec_example() {
    let s = 8;
    let n = 4;
    let h = 2;
    let positions: Vec<usize> = (0..s).collect();
    let assignments = compute_position_assignments(n, &positions, h);

    assert_eq!(assignments.len(), n);
    assert_eq!(assignments[0], vec![0, 1, 2, 3, 4, 5, 6]);
    assert_eq!(assignments[1], vec![1, 2, 3, 4, 5, 6, 7]);
    assert_eq!(assignments[2], vec![2, 3, 4, 5, 6, 7, 0]);
    assert_eq!(assignments[3], vec![3, 4, 5, 6, 7, 0, 1]);
    check_coverage(&assignments, h, s);
}

#[test]
fn case_a_edge_n_equals_s() {
    let s = 10;
    let n = 10;
    let h = 4;
    let positions: Vec<usize> = (0..s).collect();
    let assignments = compute_position_assignments(n, &positions, h);

    assert_eq!(assignments.len(), n);
    assert_eq!(assignments[0].len(), s - h + 1, "Span length should be s-h+1");
    check_coverage(&assignments, h, s);
}

#[test]
fn case_a_edge_large_h() {
    let s = 10;
    let n = 4;
    let h = 10;
    let positions: Vec<usize> = (0..s).collect();
    let assignments = compute_position_assignments(n, &positions, h);

    assert_eq!(assignments.len(), n);
    assert_eq!(assignments[0].len(), 1, "Span length should be 1 when h >= s");
}

#[test]
fn case_b_spec_example() {
    let s = 8;
    let n = 17;
    let h = 6;
    let positions: Vec<usize> = (0..s).collect();
    let assignments = compute_position_assignments(n, &positions, h);

    assert_eq!(assignments.len(), n);
    assert_eq!(assignments[0], assignments[8]);
    assert_eq!(assignments[1], assignments[9]);
    assert!(assignments[16].is_empty());
    assert_eq!(assignments[0].len(), 6);
    check_coverage(&assignments, h, s);
}

#[test]
fn case_b_edge_n_just_above_s() {
    let s = 10;
    let n = 11;
    let h = 4;
    let positions: Vec<usize> = (0..s).collect();
    let assignments = compute_position_assignments(n, &positions, h);

    assert_eq!(assignments.len(), n);
    assert!(assignments[10].is_empty(), "Validator 11 should be an excess validator");
    assert!(!assignments[0].is_empty());
    check_coverage(&assignments, h, s);
}

#[test]
fn general_edge_cases() {
    let positions: Vec<usize> = (0..10).collect();
    assert!(compute_position_assignments(0, &positions, 2).is_empty());
    assert_eq!(compute_position_assignments(5, &[], 2), vec![vec![]; 5]);
    let assignments = compute_position_assignments(1, &positions, 1);
    assert_eq!(assignments.len(), 1);
    assert_eq!(assignments[0].len(), 10);
}

#[test]
fn defrida_case_b_holds_shifted_windows() {
    // n = 17, s = 8, h = 6: adjusted threshold 3, span 6; validator 8 starts over.
    let positions: Vec<usize> = (10..18).collect();
    let assignments = compute_position_assignments(17, &positions, 6);
    assert_eq!(assignments[0], vec![10, 11, 12, 13, 14, 15]);
    assert_eq!(assignments[7], vec![17, 10, 11, 12, 13, 14]);
    assert_eq!(assignments[15], assignments[7]);
}

#[test]
fn defrida_any_h_validators_cover_all_positions() {
    // Law: for n = 6, s = 10, h = 2, every pair of validators covers all positions.
    let positions: Vec<usize> = (0..10).collect();
    let assignments = compute_position_assignments(6, &positions, 2);
    for a in 0..6 {
        for b in (a + 1)..6 {
            let union: HashSet<usize> = assignments[a].iter().chain(assignments[b].iter()).cloned().collect();
            assert_eq!(union.len(), 10);
        }
    }
}

#[test]
fn proofs_go_to_validators_with_positions() {
    assert_eq!(proof_assignments(0, &[1, 2, 3]), Err(DefridaError::InvalidNumValidators));
    // 5 validators over 3 positions: h = 2, case B with n' = 3 served validators and
    // 2 without positions, so h' = 0 and each served validator holds 3 - 0 + 1 = 4
    // positions, cyclically.
    let plan = proof_assignments(5, &[10, 20, 30]).unwrap();
    let indices: Vec<usize> = plan.iter().map(|p| p.0).collect();
    assert_eq!(indices, vec![0, 1, 2]);
    assert_eq!(plan[0].1, vec![10, 20, 30, 10]);
    assert_eq!(plan[2].1, vec![30, 10, 20, 30]);
    // 4 validators over 8 positions: h = 2, everybody holds 7 positions.
    let plan = proof_assignments(4, &[0, 1, 2, 3, 4, 5, 6, 7]).unwrap();
    assert_eq!(plan.len(), 4);
    assert_eq!(plan[3], (3, vec![3, 4, 5, 6, 7, 0, 1]));
}

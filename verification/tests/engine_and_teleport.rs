use trustflow::decay::Edge;
use trustflow::engine::{run, RankError};
use trustflow::rational::Ratio;
use trustflow::teleport::build_teleport_vector;

fn r(num: i64, den: i64) -> Ratio {
    Ratio { num, den }
}

#[test]
fn worked_scenario_two_nodes_one_edge() {
    // 2 nodes, one edge 0 -> 1 created at time 0, weight 1 (no decay),
    // damping 1/2, uniform teleport, 1 iteration: ranks [3/8, 5/8].
    let edges = vec![Edge { source: 0, target: 1, time_of_creation: 0 }];
    let weights = vec![r(1, 1)];
    let teleport = vec![r(1, 2), r(1, 2)];
    let ranks = run(&edges, &weights, 2, 1, r(1, 2), &teleport).unwrap();
    assert_eq!(ranks.len(), 2);
    assert!(ranks[0].eq_value(r(3, 8)));
    assert!(ranks[1].eq_value(r(5, 8)));
    // Total mass is exactly one.
    let total = ranks[0].checked_add(ranks[1]).unwrap();
    assert!(total.eq_value(r(1, 1)));
}

#[test]
fn zero_iterations_returns_uniform() {
    let edges = vec![Edge { source: 0, target: 1, time_of_creation: 0 }];
    let weights = vec![r(1, 1)];
    let teleport = vec![r(1, 4), r(3, 4)];
    let ranks = run(&edges, &weights, 2, 0, r(1, 2), &teleport).unwrap();
    assert!(ranks[0].eq_value(r(1, 2)));
    assert!(ranks[1].eq_value(r(1, 2)));
}

#[test]
fn dangling_node_mass_is_redistributed() {
    // One node, no edges: its whole damped mass becomes dangling and comes
    // back to it, so the rank stays exactly 1.
    let edges: Vec<Edge> = vec![];
    let weights: Vec<Ratio> = vec![];
    let teleport = vec![r(1, 1)];
    let ranks = run(&edges, &weights, 1, 3, r(1, 2), &teleport).unwrap();
    assert!(ranks[0].eq_value(r(1, 1)));
}

#[test]
fn mass_is_conserved_across_iterations() {
    let edges = vec![Edge { source: 0, target: 1, time_of_creation: 0 }];
    let weights = vec![r(1, 2)];
    let teleport = vec![r(1, 2), r(1, 2)];
    // Unreduced denominators grow fast: small rounds stay inside the carrier.
    for iters in 0..2 {
        let ranks = run(&edges, &weights, 2, iters, r(1, 2), &teleport).unwrap();
        let mut total = Ratio::zero();
        for x in &ranks {
            total = total.checked_add(*x).unwrap();
        }
        assert!(total.eq_value(r(1, 1)));
    }
}

#[test]
fn run_is_deterministic() {
    let edges = vec![Edge { source: 0, target: 1, time_of_creation: 0 }];
    let weights = vec![r(2, 3)];
    let teleport = vec![r(1, 2), r(1, 2)];
    let first = run(&edges, &weights, 2, 1, r(1, 2), &teleport).unwrap();
    let second = run(&edges, &weights, 2, 1, r(1, 2), &teleport).unwrap();
    assert_eq!(first, second);
}

#[test]
fn run_rejects_bad_inputs() {
    let edges = vec![Edge { source: 0, target: 1, time_of_creation: 0 }];
    let weights = vec![r(1, 1)];
    // Teleport vector of the wrong length.
    let short = vec![r(1, 1)];
    assert_eq!(run(&edges, &weights, 2, 1, r(1, 2), &short), Err(RankError::InvalidInput));
    // Teleport vector that does not sum to one.
    let bad_sum = vec![r(1, 2), r(1, 4)];
    assert_eq!(run(&edges, &weights, 2, 1, r(1, 2), &bad_sum), Err(RankError::InvalidInput));
    // Mismatched weight count.
    let no_weights: Vec<Ratio> = vec![];
    let tel = vec![r(1, 2), r(1, 2)];
    assert_eq!(run(&edges, &no_weights, 2, 1, r(1, 2), &tel), Err(RankError::InvalidInput));
    // No nodes.
    assert_eq!(run(&edges, &weights, 0, 1, r(1, 2), &tel), Err(RankError::InvalidInput));
    // An edge endpoint out of range.
    let stray = vec![Edge { source: 0, target: 5, time_of_creation: 0 }];
    assert_eq!(run(&stray, &weights, 2, 1, r(1, 2), &tel), Err(RankError::InvalidInput));
    // A damping factor outside [0, 1].
    assert_eq!(run(&edges, &weights, 2, 1, r(2, 1), &tel), Err(RankError::InvalidInput));
    assert_eq!(run(&edges, &weights, 2, 1, r(-1, 2), &tel), Err(RankError::InvalidInput));
}

#[test]
fn teleport_shares_are_exact() {
    // 4 nodes, experts {1, 2}, fraction 4/5: base (1/5)/4 = 1/20,
    // expert share 1/20 + (4/5)/2 = 9/20.
    let experts = vec![1, 2];
    let tel = build_teleport_vector(4, &experts, r(4, 5)).unwrap();
    assert!(tel[0].eq_value(r(1, 20)));
    assert!(tel[1].eq_value(r(9, 20)));
    assert!(tel[2].eq_value(r(9, 20)));
    assert!(tel[3].eq_value(r(1, 20)));
    // The shares sum exactly to one.
    let mut total = Ratio::zero();
    for x in &tel {
        total = total.checked_add(*x).unwrap();
    }
    assert!(total.eq_value(r(1, 1)));
}

#[test]
fn teleport_duplicate_experts_get_no_double_bonus() {
    let experts = vec![1, 1, 1];
    let tel = build_teleport_vector(2, &experts, r(1, 2)).unwrap();
    // base (1/2)/2 = 1/4; the single distinct expert gets 1/4 + 1/2.
    assert!(tel[0].eq_value(r(1, 4)));
    assert!(tel[1].eq_value(r(3, 4)));
}

#[test]
fn teleport_rejects_bad_inputs() {
    // Empty expert set with a nonzero fraction.
    let none: Vec<usize> = vec![];
    assert_eq!(build_teleport_vector(3, &none, r(4, 5)), Err(RankError::InvalidInput));
    // An expert id out of range.
    let stray = vec![7];
    assert_eq!(build_teleport_vector(3, &stray, r(1, 2)), Err(RankError::InvalidInput));
    // No nodes at all.
    assert_eq!(build_teleport_vector(0, &none, r(0, 1)), Err(RankError::InvalidInput));
    // Empty expert set with fraction zero is fine: uniform distribution.
    let tel = build_teleport_vector(2, &none, r(0, 1)).unwrap();
    assert!(tel[0].eq_value(r(1, 2)));
    assert!(tel[1].eq_value(r(1, 2)));
}

use dqcmap::DqcMapError;
use dqcmap::cif_pairs::{CifPair, CifPairs};
use dqcmap::ctrl_to_pq::Ctrl2Pq;
use dqcmap::state::DqcMapState;

fn pair(a: i32, b: i32) -> CifPair {
    CifPair { a, b }
}

fn demo_ctrl2pq() -> Ctrl2Pq {
    // controller 1 owns qubits 0 and 1; controller 2 owns qubits 2 and 3
    Ctrl2Pq::new(&vec![(1, vec![0, 1]), (2, vec![2, 3])]).unwrap()
}

fn demo_cif_pairs() -> CifPairs {
    // feedback pairs under node 1: {0,2} and {1,3}
    CifPairs::new(&vec![(1, vec![pair(0, 2), pair(1, 3)])])
}

#[test]
fn test_get_swap_involved_pairs() {
    let cif_pairs = CifPairs::new(&vec![
        (1, vec![pair(1, 2), pair(3, 4)]),
        (2, vec![pair(5, 6), pair(1, 6)]),
    ]);

    let swap: Vec<i32> = vec![1, 5];
    let active_nodes: Vec<usize> = vec![1, 2];
    let active_nodes_2: Vec<usize> = vec![1];
    let result = cif_pairs.get_swap_involved_pairs(&swap, &active_nodes).unwrap();
    let result_2 = cif_pairs.get_swap_involved_pairs(&swap, &active_nodes_2).unwrap();
    assert_eq!(result, vec![pair(1, 2), pair(5, 6), pair(1, 6)]);
    assert_eq!(result_2, vec![pair(1, 2)]);

    let swap: Vec<i32> = vec![3, 6];
    let result = cif_pairs.get_swap_involved_pairs(&swap, &active_nodes).unwrap();
    assert_eq!(result, vec![pair(3, 4), pair(5, 6), pair(1, 6)]);

    let swap: Vec<i32> = vec![7, 8];
    let result = cif_pairs.get_swap_involved_pairs(&swap, &active_nodes).unwrap();
    assert!(result.is_empty());

    let invalid_swap: Vec<i32> = vec![1];
    let result = cif_pairs.get_swap_involved_pairs(&invalid_swap, &active_nodes);
    assert!(result.is_err());
}

#[test]
fn test_ctrl2pq_creation() {
    let data: Vec<(i32, Vec<i32>)> = vec![(1, vec![1, 2, 3]), (2, vec![4, 5, 6])];
    let ctrl2pq = Ctrl2Pq::new(&data).unwrap();

    assert_eq!(ctrl2pq.get_qubits_by_controller(1), Some(&vec![1, 2, 3]));
    assert_eq!(ctrl2pq.get_qubits_by_controller(2), Some(&vec![4, 5, 6]));
}

#[test]
fn test_dqcmapstate_score() {
    let ctrl2pq = demo_ctrl2pq();
    let cif_pairs = demo_cif_pairs();
    let active_nodes: Vec<usize> = vec![1];

    let dqcmap_state = DqcMapState::new(Some(ctrl2pq), Some(cif_pairs));

    // swap between qubits controlled by different controllers: both pairs
    // cross before and after, so the delta is zero
    let swap1: Vec<i32> = vec![0, 2];
    let score1 = dqcmap_state.score(&swap1, &active_nodes).unwrap();
    assert_eq!(score1, Some(0));

    // swap between qubits controlled by the same controller
    let swap2: Vec<i32> = vec![0, 1];
    let score2 = dqcmap_state.score(&swap2, &active_nodes).unwrap();
    assert_eq!(score2, Some(0));

    // swap that turns both crossing pairs into same-controller pairs
    let swap3: Vec<i32> = vec![1, 2];
    let score3 = dqcmap_state.score(&swap3, &active_nodes).unwrap();
    assert_eq!(score3, Some(2));
}

#[test]
fn same_controller_swap_scores_zero_regardless_of_pairs() {
    // many pairs stored, but {2,3} stays inside controller 2
    let state = DqcMapState::new(Some(demo_ctrl2pq()), Some(demo_cif_pairs()));
    assert_eq!(state.score(&vec![2, 3], &vec![1]).unwrap(), Some(0));
}

#[test]
fn unmapped_swap_member_scores_absent() {
    let state = DqcMapState::new(Some(demo_ctrl2pq()), Some(demo_cif_pairs()));
    // qubit 9 is wired to no controller
    assert_eq!(state.score(&vec![9, 0], &vec![1]).unwrap(), None);
    assert_eq!(state.score(&vec![0, 9], &vec![1]).unwrap(), None);
}

#[test]
fn missing_indexes_score_absent() {
    let no_ctrl = DqcMapState::new(None, Some(demo_cif_pairs()));
    assert_eq!(no_ctrl.score(&vec![0, 2], &vec![1]).unwrap(), None);
    // an oracle without the pair index has no opinion either, whether the
    // swap crosses controllers or stays inside one
    let no_pairs = DqcMapState::new(Some(demo_ctrl2pq()), None);
    assert_eq!(no_pairs.score(&vec![0, 2], &vec![1]).unwrap(), None);
    assert_eq!(no_pairs.score(&vec![2, 3], &vec![1]).unwrap(), None);
    let neither = DqcMapState::new(None, None);
    assert_eq!(neither.score(&vec![0, 2], &vec![1]).unwrap(), None);
}

#[test]
fn swap_untouched_by_any_pair_scores_zero() {
    // controllers as usual; the only pair is {0,2}; swap {1,3} touches no pair
    let cif_pairs = CifPairs::new(&vec![(1, vec![pair(0, 2)])]);
    let state = DqcMapState::new(Some(demo_ctrl2pq()), Some(cif_pairs));
    assert_eq!(state.score(&vec![1, 3], &vec![1]).unwrap(), Some(0));
}

#[test]
fn empty_active_nodes_is_a_neutral_scope() {
    let state = DqcMapState::new(Some(demo_ctrl2pq()), Some(demo_cif_pairs()));
    assert_eq!(state.score(&vec![0, 2], &vec![]).unwrap(), Some(0));
}

#[test]
fn malformed_swap_fails_fast() {
    let mut state = DqcMapState::new(Some(demo_ctrl2pq()), Some(demo_cif_pairs()));
    assert_eq!(state.score(&vec![1], &vec![1]), Err(DqcMapError::MalformedSwap));
    assert_eq!(state.score(&vec![1, 2, 3], &vec![1]), Err(DqcMapError::MalformedSwap));
    assert_eq!(state.apply_swap(&vec![1], &vec![1]), Err(DqcMapError::MalformedSwap));
    assert_eq!(state.apply_swap(&vec![1, 2, 3], &vec![1]), Err(DqcMapError::MalformedSwap));
    // a malformed swap must not have relabeled anything
    let untouched = state.cif_pairs.as_ref().unwrap().get_node_pairs(1);
    assert_eq!(untouched, Some(&vec![pair(0, 2), pair(1, 3)]));
}

#[test]
fn ambiguous_wiring_is_rejected_at_construction() {
    // qubit 0 claimed by two different controllers
    let r = Ctrl2Pq::new(&vec![(1, vec![0]), (2, vec![0])]);
    assert_eq!(r.err(), Some(DqcMapError::AmbiguousQubit));
    // listing a qubit twice under one controller is not ambiguous
    assert!(Ctrl2Pq::new(&vec![(1, vec![0, 0]), (2, vec![2])]).is_ok());
}

#[test]
fn apply_relabels_only_active_nodes() {
    let mut cif_pairs = CifPairs::new(&vec![
        (1, vec![pair(0, 2), pair(1, 3)]),
        (2, vec![pair(0, 3)]),
    ]);
    cif_pairs.apply_swap(&vec![0, 2], &vec![1]).unwrap();
    // node 1 relabeled: {0,2} -> {2,0}, {1,3} untouched by the transposition
    assert_eq!(cif_pairs.get_node_pairs(1), Some(&vec![pair(2, 0), pair(1, 3)]));
    // node 2 was not active: its pair keeps its old labels
    assert_eq!(cif_pairs.get_node_pairs(2), Some(&vec![pair(0, 3)]));
}

#[test]
fn find_touching_reads_only_active_nodes() {
    let cif_pairs = CifPairs::new(&vec![
        (1, vec![pair(0, 2)]),
        (2, vec![pair(0, 3)]),
    ]);
    let touched = cif_pairs.get_swap_involved_pairs(&vec![0, 3], &vec![1]).unwrap();
    assert_eq!(touched, vec![pair(0, 2)]);
}

#[test]
fn double_apply_restores_the_index() {
    let mut cif_pairs = CifPairs::new(&vec![
        (1, vec![pair(0, 2), pair(1, 3)]),
        (2, vec![pair(0, 3)]),
    ]);
    let active: Vec<usize> = vec![1, 2];
    cif_pairs.apply_swap(&vec![0, 2], &active).unwrap();
    cif_pairs.apply_swap(&vec![0, 2], &active).unwrap();
    assert_eq!(cif_pairs.get_node_pairs(1), Some(&vec![pair(0, 2), pair(1, 3)]));
    assert_eq!(cif_pairs.get_node_pairs(2), Some(&vec![pair(0, 3)]));
}

#[test]
fn apply_conserves_pair_counts() {
    let mut cif_pairs = CifPairs::new(&vec![
        (1, vec![pair(0, 2), pair(1, 3)]),
        (2, vec![pair(0, 3)]),
    ]);
    cif_pairs.apply_swap(&vec![1, 2], &vec![1, 2]).unwrap();
    assert_eq!(cif_pairs.get_node_pairs(1).unwrap().len(), 2);
    assert_eq!(cif_pairs.get_node_pairs(2).unwrap().len(), 1);
    assert_eq!(cif_pairs.get_node_pairs(3), None);
}

#[test]
fn scenario_swap_members_each_touch_one_crossing_pair() {
    // swap {0,2}: before, {0,2} and {1,3} both cross controllers 1 and 2;
    // after the transposition both still cross, so the score is 0
    let state = DqcMapState::new(Some(demo_ctrl2pq()), Some(demo_cif_pairs()));
    assert_eq!(state.score(&vec![0, 2], &vec![1]).unwrap(), Some(0));
}

#[test]
fn scenario_swap_removes_both_crossings() {
    // swap {1,2}: {0,2} becomes {0,1} (controller 1 only) and {1,3} becomes
    // {2,3} (controller 2 only): two crossings removed
    let state = DqcMapState::new(Some(demo_ctrl2pq()), Some(demo_cif_pairs()));
    assert_eq!(state.score(&vec![1, 2], &vec![1]).unwrap(), Some(2));
}

#[test]
fn apply_then_score_reflects_new_labels() {
    let mut state = DqcMapState::new(Some(demo_ctrl2pq()), Some(demo_cif_pairs()));
    state.apply_swap(&vec![1, 2], &vec![1]).unwrap();
    // pairs are now {0,1} and {2,3}: no pair crosses controllers any more,
    // and swapping {1,2} back would introduce both crossings again
    assert_eq!(state.score(&vec![1, 2], &vec![1]).unwrap(), Some(-2));
}

use cube200::cube::CubeState;
use cube200::explore::{
    best_candidate, explore, explorer_candidates, select_best, ExplorerResult, EXPLORER_COUNT,
};
use cube200::geometry::{FACE_SIZE, N, TOTAL};
use cube200::moves::Move;
use cube200::phase::{
    center_candidate_moves, detect_phase, edge_pairing_candidates, three_stage_candidates,
    SolvePhase,
};
use cube200::scramble::Cube;

fn solved() -> CubeState {
    Cube::new_solved().state
}

fn mv(axis: u8, layer: u16, cw: bool) -> Move {
    Move { axis, layer, cw }
}

#[test]
fn counts_of_the_solved_cube_are_full() {
    let s = solved();
    assert_eq!(s.solved_count(), 240_000);
    assert_eq!(s.center_solved_count(), 6 * 198 * 198);
    assert_eq!(s.edge_solved_count(), 6 * 4 * 198);
    assert_eq!(s.heuristic_cost(), 0);
}

#[test]
fn counts_of_the_zero_cube_are_one_face() {
    let s = CubeState::new_zeroed();
    assert_eq!(s.solved_count(), 40_000);
    assert_eq!(s.center_solved_count(), 198 * 198);
    assert_eq!(s.edge_solved_count(), 4 * 198);
    assert_eq!(s.heuristic_cost(), 200_000);
}

#[test]
fn each_cell_counts_in_one_place() {
    let mut s = solved();
    s.set(2, 100, 50, 9);
    s.set(3, 1, 198, 9);
    assert_eq!((s.solved_count(), s.center_solved_count(), s.edge_solved_count()), (239_998, 235_222, 4_752));
    s.set(4, 0, 7, 9);
    s.set(4, 199, 7, 9);
    s.set(0, 8, 0, 9);
    s.set(0, 8, 199, 9);
    assert_eq!((s.solved_count(), s.center_solved_count(), s.edge_solved_count()), (239_994, 235_222, 4_748));
    s.set(1, 0, 0, 9);
    s.set(1, 199, 199, 9);
    assert_eq!((s.solved_count(), s.center_solved_count(), s.edge_solved_count()), (239_992, 235_222, 4_748));
    assert_eq!(s.heuristic_cost(), 8);
}

#[test]
fn phases_follow_what_is_solved() {
    let mut s = solved();
    assert_eq!(detect_phase(&s), SolvePhase::Solved);
    s.set(1, 0, 199, 9);
    assert_eq!(detect_phase(&s), SolvePhase::ThreeByThreeReduction);
    s.set(1, 0, 5, 9);
    assert_eq!(detect_phase(&s), SolvePhase::EdgePairing);
    s.set(5, 60, 70, 9);
    assert_eq!(detect_phase(&s), SolvePhase::CenterReduction);
    s.set(5, 60, 70, 5);
    s.set(1, 0, 199, 1);
    assert_eq!(detect_phase(&s), SolvePhase::EdgePairing);
}

#[test]
fn center_candidates_of_a_layer() {
    let s = solved();
    let expected = |a: u8| {
        vec![
            vec![mv(a, 17, true)],
            vec![mv(a, 17, false)],
            vec![mv(a, 17, true), mv((a + 1) % 3, 100, true), mv(a, 17, false)],
            vec![mv(a, 17, false), mv((a + 2) % 3, 100, false), mv(a, 17, true)],
        ]
    };
    for (face, axis) in [(0, 0), (1, 1), (2, 2), (3, 0), (4, 1), (5, 2)] {
        assert_eq!(center_candidate_moves(&s, face, 17), expected(axis));
    }
}

#[test]
fn edge_candidates_of_a_layer() {
    assert_eq!(
        edge_pairing_candidates(42),
        vec![
            vec![mv(0, 0, true), mv(1, 42, true), mv(0, 0, false), mv(1, 42, false)],
            vec![mv(0, 0, false), mv(1, 42, false), mv(0, 0, true), mv(1, 42, true)],
            vec![mv(2, 0, true), mv(0, 42, true), mv(2, 0, false), mv(0, 42, false)],
            vec![mv(2, 0, false), mv(0, 42, false), mv(2, 0, true), mv(0, 42, true)],
        ]
    );
    // A layer number beyond sixteen bits is cut off.
    assert_eq!(edge_pairing_candidates(65536 + 3)[0][1], mv(1, 3, true));
}

#[test]
fn outer_layers_are_the_last_candidates() {
    let v = three_stage_candidates();
    assert_eq!(v.len(), 12);
    assert_eq!(v[0], vec![mv(0, 0, true)]);
    assert_eq!(v[1], vec![mv(0, 0, false)]);
    assert_eq!(v[4], vec![mv(2, 0, true)]);
    assert_eq!(v[6], vec![mv(0, 199, true)]);
    assert_eq!(v[11], vec![mv(2, 199, false)]);
}

#[test]
fn explorers_share_the_layers() {
    let s = solved();
    let center = |id| explorer_candidates(&s, SolvePhase::CenterReduction, id);
    for (id, axis, lo, hi) in [
        (0, 0, 0, 50),
        (1, 0, 50, 100),
        (2, 1, 100, 150),
        (3, 1, 150, 200),
        (4, 2, 40, 60),
        (5, 0, 50, 70),
        (6, 1, 60, 80),
        (7, 2, 70, 90),
        (9, 2, 90, 110),
        (19, 2, 190, 200),
    ] {
        let v = center(id);
        assert_eq!(v.len(), 4 * (hi - lo));
        assert_eq!(v[0], vec![mv(axis, lo as u16, true)]);
        assert_eq!(v[v.len() - 3], vec![mv(axis, hi as u16 - 1, false)]);
    }
    assert!(center(20).is_empty());

    for id in 0..EXPLORER_COUNT {
        let v = explorer_candidates(&s, SolvePhase::EdgePairing, id);
        assert_eq!(v.len(), 100);
        assert_eq!(v[0][1], mv(1, 25 * id as u16, true));
        assert_eq!(v[99][1], mv(0, 25 * id as u16 + 24, false));
    }
    assert!(explorer_candidates(&s, SolvePhase::EdgePairing, 8).is_empty());
    assert_eq!(
        explorer_candidates(&s, SolvePhase::ThreeByThreeReduction, 3),
        three_stage_candidates()
    );
}

#[test]
fn cheapest_candidate_is_found() {
    let mut s = solved();
    s.apply(mv(0, 120, true));
    let list = vec![
        vec![mv(1, 3, true)],
        vec![mv(0, 120, false)],
        vec![mv(0, 120, true), mv(0, 120, true), mv(0, 120, true)],
    ];
    let (moves, cost) = best_candidate(&s, &list);
    assert_eq!(moves, vec![mv(0, 120, false)]);
    assert_eq!(cost, 0);

    let (moves, cost) = best_candidate(&s, &vec![]);
    assert!(moves.is_empty());
    assert_eq!(cost, i64::MAX);

    // Of equally cheap ones the first is taken.
    let list = vec![vec![mv(1, 3, true)], vec![mv(1, 4, true)]];
    let t = solved();
    assert_eq!(best_candidate(&t, &list), (vec![mv(1, 3, true)], 800));
}

#[test]
fn explorer_finds_the_way_back() {
    assert!(explore(0, &solved()).is_none());
    let mut s = solved();
    s.apply(mv(0, 60, true));
    let (moves, cost) = explore(1, &s).unwrap();
    assert_eq!(moves, vec![mv(0, 60, false)]);
    assert_eq!(cost, 0);
    s.apply_seq(&moves);
    assert_eq!(s.heuristic_cost(), cost);
    assert_eq!(detect_phase(&s), SolvePhase::Solved);
}

#[test]
fn explorer_without_layers_finds_nothing() {
    let mut s = solved();
    s.set(0, 50, 50, 9);
    let (moves, cost) = explore(30, &s).unwrap();
    assert!(moves.is_empty());
    assert_eq!(cost, i64::MAX);
}

fn result(id: usize, cost: i64) -> ExplorerResult {
    ExplorerResult { explorer_id: id, moves: vec![mv(0, 0, true)], predicted_cost: cost, elapsed_us: 1 }
}

#[test]
fn lowest_result_is_selected() {
    assert_eq!(select_best(&vec![]), None);
    assert_eq!(select_best(&vec![result(0, 5)]), Some(0));
    assert_eq!(select_best(&vec![result(0, 5), result(1, 3), result(2, 4), result(3, 3)]), Some(1));
    assert_eq!(select_best(&vec![result(0, -2), result(1, 3)]), Some(0));
}

#[test]
fn sizes_of_the_cube() {
    assert_eq!((N, FACE_SIZE, TOTAL), (200, 40_000, 240_000));
}

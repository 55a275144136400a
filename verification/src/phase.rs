//! The phases of a solution by reduction, and the moves to try in each of them.

use vstd::prelude::*;

use crate::count_laws::{
    all_solved, centers_solved, edges_solved, is_center, is_edge, law_center_total_full,
    law_edge_total_full, law_solved_total_full,
};
use crate::cube::CubeState;
use crate::geometry::{
    cell, lemma_flat_of_place, lemma_place_of_flat, place, Pos, FACES, N, TOTAL,
};
use crate::moves::{all_valid, Move};

verus! {

/// How far the solution has come.
#[derive(Clone, Copy, Debug, PartialEq, Eq, Structural)]
pub enum SolvePhase {
    /// Some centre cell is not solved.
    CenterReduction,
    /// The centres are solved, some edge cell is not.
    EdgePairing,
    /// Centres and edges are solved, some corner is not.
    ThreeByThreeReduction,
    /// Everything is solved.
    Solved,
}

/// The phase that the cells `s` are in.
pub open spec fn phase_of(s: Seq<u8>) -> SolvePhase {
    if all_solved(s) {
        SolvePhase::Solved
    } else if !centers_solved(s) {
        SolvePhase::CenterReduction
    } else if !edges_solved(s) {
        SolvePhase::EdgePairing
    } else {
        SolvePhase::ThreeByThreeReduction
    }
}

/// The phase that the cube is in.
pub fn detect_phase(s: &CubeState) -> (res: SolvePhase)
    ensures
        res == phase_of(s@),
{
    proof {
        law_solved_total_full(s@);
        law_center_total_full(s@);
        law_edge_total_full(s@);
        assert(FACES * (N - 2) * (N - 2) == 235_224) by (nonlinear_arith);
        assert(FACES * 4 * (N - 2) == 4_752) by (nonlinear_arith);
    }
    if s.solved_count() as usize == TOTAL {
        return SolvePhase::Solved;
    }
    if (s.center_solved_count() as usize) < FACES * (N - 2) * (N - 2) {
        return SolvePhase::CenterReduction;
    }
    if (s.edge_solved_count() as usize) < FACES * 4 * (N - 2) {
        return SolvePhase::EdgePairing;
    }
    SolvePhase::ThreeByThreeReduction
}

/// The sequences of moves that a list holds.
pub open spec fn contents(list: Seq<Vec<Move>>) -> Seq<Seq<Move>> {
    list.map_values(|moves: Vec<Move>| moves@)
}

/// A turn of `layer` around `axis`.
pub open spec fn turn(axis: int, layer: u16, cw: bool) -> Move {
    Move { axis: axis as u8, layer, cw }
}

/// What to try on `layer` for the centre of `face`: the layer in each direction, and each of
/// these with a turn of the middle layer of another axis between it and its reverse.
pub open spec fn center_candidates(face: int, layer: u16) -> Seq<Seq<Move>> {
    let axis = face % 3;
    let middle = (N / 2) as u16;
    seq![
        seq![turn(axis, layer, true)],
        seq![turn(axis, layer, false)],
        seq![
            turn(axis, layer, true),
            turn((axis + 1) % 3, middle, true),
            turn(axis, layer, false),
        ],
        seq![
            turn(axis, layer, false),
            turn((axis + 2) % 3, middle, false),
            turn(axis, layer, true),
        ],
    ]
}

/// A turn, another turn, and the reverses of both in the same order.
pub open spec fn commutator(a: Move, b: Move) -> Seq<Move> {
    seq![a, b, a.reversed(), b.reversed()]
}

/// What to try on `layer` to pair edges: four commutators of an outer layer with it.
pub open spec fn edge_candidates(layer: u16) -> Seq<Seq<Move>> {
    seq![
        commutator(turn(0, 0, true), turn(1, layer, true)),
        commutator(turn(0, 0, false), turn(1, layer, false)),
        commutator(turn(2, 0, true), turn(0, layer, true)),
        commutator(turn(2, 0, false), turn(0, layer, false)),
    ]
}

/// What to try at the end: each outer layer in each direction.
pub open spec fn outer_candidates() -> Seq<Seq<Move>> {
    Seq::new(
        12,
        |i: int|
            seq![turn(i / 2 % 3, if i < 6 { 0 } else { (N - 1) as u16 }, i % 2 == 0)],
    )
}

/// What to try on `layer` for the centre of `face`.
pub fn center_candidate_moves(_state: &CubeState, face: usize, layer: usize) -> (res: Vec<
    Vec<Move>,
>)
    requires
        face < FACES,
    ensures
        contents(res@) == center_candidates(face as int, layer as u16),
{
    let axis = (face % 3) as u8;
    let l = layer as u16;
    let middle = (N / 2) as u16;
    let res = vec![
        vec![Move { axis, layer: l, cw: true }],
        vec![Move { axis, layer: l, cw: false }],
        vec![
            Move { axis, layer: l, cw: true },
            Move { axis: (axis + 1) % 3, layer: middle, cw: true },
            Move { axis, layer: l, cw: false },
        ],
        vec![
            Move { axis, layer: l, cw: false },
            Move { axis: (axis + 2) % 3, layer: middle, cw: false },
            Move { axis, layer: l, cw: true },
        ],
    ];
    assert(contents(res@) =~~= center_candidates(face as int, layer as u16));
    res
}

/// What to try on `layer` to pair edges.
pub fn edge_pairing_candidates(layer: usize) -> (res: Vec<Vec<Move>>)
    ensures
        contents(res@) == edge_candidates(layer as u16),
{
    let l = layer as u16;
    let res = vec![
        vec![
            Move { axis: 0, layer: 0, cw: true },
            Move { axis: 1, layer: l, cw: true },
            Move { axis: 0, layer: 0, cw: false },
            Move { axis: 1, layer: l, cw: false },
        ],
        vec![
            Move { axis: 0, layer: 0, cw: false },
            Move { axis: 1, layer: l, cw: false },
            Move { axis: 0, layer: 0, cw: true },
            Move { axis: 1, layer: l, cw: true },
        ],
        vec![
            Move { axis: 2, layer: 0, cw: true },
            Move { axis: 0, layer: l, cw: true },
            Move { axis: 2, layer: 0, cw: false },
            Move { axis: 0, layer: l, cw: false },
        ],
        vec![
            Move { axis: 2, layer: 0, cw: false },
            Move { axis: 0, layer: l, cw: false },
            Move { axis: 2, layer: 0, cw: true },
            Move { axis: 0, layer: l, cw: true },
        ],
    ];
    assert(contents(res@) =~~= edge_candidates(layer as u16));
    res
}

/// What to try at the end.
pub fn three_stage_candidates() -> (res: Vec<Vec<Move>>)
    ensures
        contents(res@) == outer_candidates(),
{
    let mut v: Vec<Vec<Move>> = Vec::with_capacity(12);
    for k in 0usize..2
        invariant
            v@.len() == 6 * k,
            contents(v@) == outer_candidates().take(6 * k),
    {
        let layer = if k == 0 { 0 } else { (N - 1) as u16 };
        for axis in 0u8..3
            invariant
                k < 2,
                layer == (if k == 0 { 0 } else { (N - 1) as u16 }),
                v@.len() == 6 * k + 2 * axis,
                contents(v@) == outer_candidates().take(6 * k + 2 * axis),
        {
            v.push(vec![Move { axis, layer, cw: true }]);
            v.push(vec![Move { axis, layer, cw: false }]);
            assert(contents(v@) =~~= outer_candidates().take(6 * k + 2 * axis + 2));
        }
    }
    assert(outer_candidates().take(12) =~= outer_candidates());
    v
}

/// Every sequence of the list can be made on the cube.
pub open spec fn all_playable(list: Seq<Seq<Move>>) -> bool {
    forall|i: int| 0 <= i < list.len() ==> all_valid(#[trigger] list[i])
}

/// A list stands for as many sequences as it holds, each of them for its moves.
pub proof fn law_lists_hold_their_sequences(list: Seq<Vec<Move>>, i: int)
    requires
        0 <= i < list.len(),
    ensures
        contents(list).len() == list.len(),
        contents(list)[i] == list[i]@,
{
}

/// A list can be made on the cube exactly if all moves in it name one of three axes and one of two
/// hundred layers.
pub proof fn law_playable_moves_name_a_layer(list: Seq<Seq<Move>>)
    ensures
        all_playable(list) <==> (forall|i: int, j: int|
            0 <= i < list.len() && 0 <= j < list[i].len() ==> (#[trigger] list[i][j]).axis < 3
                && list[i][j].layer < 200),
{
    if all_playable(list) {
        assert forall|i: int, j: int| 0 <= i < list.len() && 0 <= j < list[i].len() implies (
        #[trigger] list[i][j]).axis < 3 && list[i][j].layer < 200 by {
            assert(all_valid(list[i]));
            assert(list[i][j].valid());
        }
    }
}

/// What is tried on a layer of the cube can be made on the cube, in every phase.
pub proof fn law_candidates_playable(face: int, layer: u16)
    requires
        0 <= face < FACES,
        layer < N,
    ensures
        all_playable(center_candidates(face, layer)),
        all_playable(edge_candidates(layer)),
        all_playable(outer_candidates()),
{
}

/// As long as one cell off the border of its face has another colour, the centres are worked on,
/// whatever the borders are.
pub proof fn law_open_centers_come_first(s: Seq<u8>, i: int)
    requires
        s.len() == 240000,
        0 <= i < 240000,
        0 < i % 40000 / 200 < 199,
        0 < i % 200 < 199,
        s[i] != i / 40000,
    ensures
        phase_of(s) == SolvePhase::CenterReduction,
{
    lemma_flat_of_place(i);
    assert(cell(s, place(i)) != place(i).f);
}

/// With all centres solved, the edges are worked on as long as one cell on the border of its face,
/// but in no corner, has another colour, whatever the corners are.
pub proof fn law_open_edges_come_second(s: Seq<u8>, i: int)
    requires
        s.len() == 240000,
        forall|j: int|
            0 <= j < 240000 && 0 < j % 40000 / 200 < 199 && 0 < j % 200 < 199 ==> #[trigger] s[j]
                == j / 40000,
        0 <= i < 240000,
        (0 < i % 40000 / 200 < 199) != (0 < i % 200 < 199),
        s[i] != i / 40000,
    ensures
        phase_of(s) == SolvePhase::EdgePairing,
{
    lemma_flat_of_place(i);
    assert(cell(s, place(i)) != place(i).f);
    assert forall|p: Pos| p.on_cube() && is_center(p) implies #[trigger] cell(
        s,
        p,
    ) == p.f by {
        lemma_place_of_flat(p);
        assert(s[p.flat()] == p.flat() / 40000);
    }
}

/// With all centres and edges solved, the rest is worked on as long as one corner has another
/// colour.
pub proof fn law_open_corners_come_last(s: Seq<u8>, i: int)
    requires
        s.len() == 240000,
        forall|j: int|
            0 <= j < 240000 && (0 < j % 40000 / 200 < 199 || 0 < j % 200 < 199) ==> #[trigger] s[j]
                == j / 40000,
        0 <= i < 240000,
        s[i] != i / 40000,
    ensures
        phase_of(s) == SolvePhase::ThreeByThreeReduction,
{
    lemma_flat_of_place(i);
    assert(cell(s, place(i)) != place(i).f);
    assert forall|p: Pos|
        p.on_cube() && (is_center(p) || is_edge(
            p,
        )) implies #[trigger] cell(s, p) == p.f by {
        lemma_place_of_flat(p);
        assert(s[p.flat()] == p.flat() / 40000);
    }
}

/// The phase is that of the solved cube exactly if every cell has the colour of its face; and
/// beyond the centres nothing is worked on before all of them are solved, nor beyond the edges
/// before all of these are.
pub proof fn law_phase_tells_what_is_solved(s: Seq<u8>, i: int)
    requires
        s.len() == 240000,
        0 <= i < 240000,
    ensures
        phase_of(s) == SolvePhase::Solved <==> (forall|j: int|
            0 <= j < 240000 ==> #[trigger] s[j] == j / 40000),
        phase_of(s) != SolvePhase::CenterReduction && 0 < i % 40000 / 200 < 199 && 0 < i % 200
            < 199 ==> s[i] == i / 40000,
        (phase_of(s) == SolvePhase::ThreeByThreeReduction || phase_of(s) == SolvePhase::Solved)
            && (0 < i % 40000 / 200 < 199 || 0 < i % 200 < 199) ==> s[i] == i / 40000,
{
    lemma_flat_of_place(i);
    assert(cell(s, place(i)) == s[i]);
    if phase_of(s) == SolvePhase::Solved {
        assert forall|j: int| 0 <= j < 240000 implies #[trigger] s[j] == j / 40000 by {
            lemma_flat_of_place(j);
            assert(cell(s, place(j)) == place(j).f);
        }
    }
    if forall|j: int| 0 <= j < 240000 ==> #[trigger] s[j] == j / 40000 {
        assert forall|p: Pos| p.on_cube() implies #[trigger] cell(s, p) == p.f by {
            lemma_place_of_flat(p);
            assert(s[p.flat()] == p.flat() / 40000);
        }
    }
}

/// On the centre of a face a layer of the axis of this face is tried: alone in each direction, and
/// in each direction before its reverse with a turn of the middle layer between them, of the next
/// axis in the one case and of the one after it in the other.
pub proof fn law_center_tries_are_turns_of_the_layer(face: int, layer: u16)
    requires
        0 <= face < 6,
    ensures
        ({
            let axis = if face == 0 || face == 3 {
                0u8
            } else if face == 1 || face == 4 {
                1u8
            } else {
                2u8
            };
            let next = if axis == 2 { 0u8 } else { (axis + 1) as u8 };
            let last = if axis == 0 { 2u8 } else { (axis - 1) as u8 };
            let there = Move { axis, layer, cw: true };
            let back = Move { axis, layer, cw: false };
            let list = center_candidates(face, layer);
            &&& list.len() == 4
            &&& list[0] == seq![there]
            &&& list[1] == seq![back]
            &&& list[2] == seq![there, Move { axis: next, layer: 100, cw: true }, back]
            &&& list[3] == seq![back, Move { axis: last, layer: 100, cw: false }, there]
        }),
{
}

/// To pair edges, a layer is tried between an outer layer and its reverse, and then turned back
/// itself: vertical layers with the uppermost layer, and horizontal layers with the front one,
/// both first clockwise and then counter-clockwise.
pub proof fn law_edge_tries_are_commutators(layer: u16, i: int)
    requires
        0 <= i < 4,
    ensures
        ({
            let list = edge_candidates(layer);
            let cw = i == 0 || i == 2;
            let (outer, inner) = if i < 2 {
                (0u8, 1u8)
            } else {
                (2u8, 0u8)
            };
            &&& list.len() == 4
            &&& list[i] == seq![
                Move { axis: outer, layer: 0, cw },
                Move { axis: inner, layer, cw },
                Move { axis: outer, layer: 0, cw: !cw },
                Move { axis: inner, layer, cw: !cw },
            ]
        }),
{
}

/// At the end every outer layer is tried in both directions, and nothing else: first the upper,
/// right and front ones, then the opposite ones, each clockwise first.
pub proof fn law_every_outer_layer_is_tried(axis: u8, last: bool, cw: bool)
    requires
        axis < 3,
    ensures
        outer_candidates().len() == 12,
        outer_candidates()[(if last { 6int } else { 0 }) + 2 * axis + (if cw { 0int } else { 1 })]
            == seq![Move { axis, layer: if last { 199 } else { 0 }, cw }],
{
}

} // verus!

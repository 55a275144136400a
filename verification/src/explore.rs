//! The search of the explorers, and the choice among what they found.

use vstd::prelude::*;

use crate::count::solved_total;
use crate::count_laws::{law_solved_cells_are_counted, law_solved_total_full};
use crate::cube::CubeState;
use crate::geometry::{cell, lemma_flat_of_place, lemma_place_of_flat, place, turned, Pos};
use crate::geometry::{B_FACE, D_FACE, FACES, F_FACE, L_FACE, N, R_FACE, TOTAL, U_FACE};
use crate::moves::{applied_all, Move};
use crate::strip_laws::law_moves_are_made_in_order;
use crate::phase::{
    all_playable, center_candidate_moves, center_candidates, contents, detect_phase,
    edge_candidates, edge_pairing_candidates, law_candidates_playable,
    law_center_tries_are_turns_of_the_layer, law_edge_tries_are_commutators,
    law_every_outer_layer_is_tried, outer_candidates, phase_of, three_stage_candidates, SolvePhase,
};

verus! {

/// The number of explorers.
pub const EXPLORER_COUNT: usize = 8;

/// What one explorer found.
pub struct ExplorerResult {
    pub explorer_id: usize,
    pub moves: Vec<Move>,
    /// The number of cells still to be solved after `moves`.
    pub predicted_cost: i64,
    /// How long the search took.
    pub elapsed_us: u64,
}

/// What `tries` lists for each of the layers `lo .. hi`, in order.
pub open spec fn over_layers(
    lo: int,
    hi: int,
    tries: spec_fn(int) -> Seq<Seq<Move>>,
) -> Seq<Seq<Move>>
    decreases hi - lo,
{
    if lo >= hi {
        Seq::empty()
    } else {
        over_layers(lo, hi - 1, tries) + tries(hi - 1)
    }
}

/// The face whose centre explorer `id` works on.
pub open spec fn center_face(id: int) -> int {
    if id < 2 {
        U_FACE as int
    } else if id < 4 {
        R_FACE as int
    } else if id == 4 {
        F_FACE as int
    } else if id == 5 {
        D_FACE as int
    } else if id == 6 {
        L_FACE as int
    } else {
        B_FACE as int
    }
}

/// The first layer and the end of the layers that explorer `id` tries on centres: a quarter of
/// the cube for each of the first four, twenty layers for each of the others.
pub open spec fn center_layers(id: int) -> (int, int) {
    let lo = if id < 4 {
        id * (N / 4)
    } else {
        id * 10
    };
    let end = if id < 4 {
        lo + N / 4
    } else {
        lo + 20
    };
    (
        lo,
        if end < N {
            end
        } else {
            N as int
        },
    )
}

/// The first layer and the end of the layers on which explorer `id` tries to pair edges.
pub open spec fn edge_layers(id: int) -> (int, int) {
    let lo = id * (N / EXPLORER_COUNT);
    let end = lo + N / EXPLORER_COUNT;
    (
        lo,
        if end < N {
            end
        } else {
            N as int
        },
    )
}

/// Everything that explorer `id` tries in `phase`.
pub open spec fn explorer_tries(phase: SolvePhase, id: int) -> Seq<Seq<Move>> {
    match phase {
        SolvePhase::CenterReduction => {
            let (lo, hi) = center_layers(id);
            over_layers(lo, hi, |l: int| center_candidates(center_face(id), l as u16))
        },
        SolvePhase::EdgePairing => {
            let (lo, hi) = edge_layers(id);
            over_layers(lo, hi, |l: int| edge_candidates(l as u16))
        },
        _ => outer_candidates(),
    }
}

/// The layers of explorer `id` are numbers that the machine has.
pub open spec fn id_in_range(phase: SolvePhase, id: int) -> bool {
    match phase {
        SolvePhase::CenterReduction => id < 4 || id * 10 + 20 <= usize::MAX,
        SolvePhase::EdgePairing => (id + 1) * (N / EXPLORER_COUNT) <= usize::MAX,
        _ => true,
    }
}

/// Everything that explorer `id` tries can be made on the cube.
pub proof fn law_tries_playable(phase: SolvePhase, id: int)
    requires
        0 <= id,
    ensures
        all_playable(explorer_tries(phase, id)),
{
    match phase {
        SolvePhase::CenterReduction => {
            let (lo, hi) = center_layers(id);
            lemma_center_playable(center_face(id), lo, hi);
        },
        SolvePhase::EdgePairing => {
            let (lo, hi) = edge_layers(id);
            lemma_edge_playable(lo, hi);
        },
        _ => {
            law_candidates_playable(0, 0);
        },
    }
}

proof fn lemma_center_playable(face: int, lo: int, hi: int)
    requires
        0 <= face < FACES,
        0 <= lo,
        hi <= N,
    ensures
        all_playable(over_layers(lo, hi, |l: int| center_candidates(face, l as u16))),
    decreases hi - lo,
{
    if lo < hi {
        lemma_center_playable(face, lo, hi - 1);
        law_candidates_playable(face, (hi - 1) as u16);
    }
}

proof fn lemma_edge_playable(lo: int, hi: int)
    requires
        0 <= lo,
        hi <= N,
    ensures
        all_playable(over_layers(lo, hi, |l: int| edge_candidates(l as u16))),
    decreases hi - lo,
{
    if lo < hi {
        lemma_edge_playable(lo, hi - 1);
        law_candidates_playable(0, (hi - 1) as u16);
    }
}

/// Appends `more` to `list`.
fn append_all(list: &mut Vec<Vec<Move>>, more: Vec<Vec<Move>>)
    ensures
        contents(final(list)@) == contents(old(list)@) + contents(more@),
{
    let ghost before = list@;
    let mut more = more;
    let ghost added = more@;
    list.append(&mut more);
    assert(contents(list@) =~= contents(before) + contents(added));
}

/// Everything that explorer `id` tries in `phase`.
pub fn explorer_candidates(state: &CubeState, phase: SolvePhase, id: usize) -> (res: Vec<Vec<Move>>)
    requires
        id_in_range(phase, id as int),
    ensures
        contents(res@) == explorer_tries(phase, id as int),
{
    let mut res: Vec<Vec<Move>> = Vec::new();
    match phase {
        SolvePhase::CenterReduction => {
            let face = match id {
                0 | 1 => U_FACE,
                2 | 3 => R_FACE,
                4 => F_FACE,
                5 => D_FACE,
                6 => L_FACE,
                _ => B_FACE,
            };
            let lo = if id < 4 { id * (N / 4) } else { id * 10 };
            let end = if id < 4 { lo + N / 4 } else { lo + 20 };
            let hi = if end < N { end } else { N };
            let mut l: usize = lo;
            assert(contents(res@) =~= Seq::<Seq<Move>>::empty());
            while l < hi
                invariant
                    face == center_face(id as int),
                    lo <= l,
                    l <= hi || l == lo,
                    hi <= N,
                    contents(res@) == over_layers(
                        lo as int,
                        l as int,
                        |l: int| center_candidates(center_face(id as int), l as u16),
                    ),
                decreases hi - l,
            {
                append_all(&mut res, center_candidate_moves(state, face, l));
                l += 1;
            }
        },
        SolvePhase::EdgePairing => {
            proof {
                let width = N as int / EXPLORER_COUNT as int;
                assert((id + 1) * width == id * width + width) by (nonlinear_arith);
            }
            let lo = id * (N / EXPLORER_COUNT);
            let end = lo + N / EXPLORER_COUNT;
            let hi = if end < N { end } else { N };
            let mut l: usize = lo;
            assert(contents(res@) =~= Seq::<Seq<Move>>::empty());
            while l < hi
                invariant
                    lo <= l,
                    l <= hi || l == lo,
                    hi <= N,
                    contents(res@) == over_layers(
                        lo as int,
                        l as int,
                        |l: int| edge_candidates(l as u16),
                    ),
                decreases hi - l,
            {
                append_all(&mut res, edge_pairing_candidates(l));
                l += 1;
            }
        },
        _ => {
            res = three_stage_candidates();
        },
    }
    res
}

/// The number of cells still to be solved after `moves` on the cells `s`.
pub open spec fn cost_after(s: Seq<u8>, moves: Seq<Move>) -> int {
    TOTAL - solved_total(applied_all(s, moves))
}

/// The `k`-th sequence of the list is the first of the cheapest.
pub open spec fn first_cheapest(s: Seq<u8>, list: Seq<Seq<Move>>, k: int) -> bool {
    &&& 0 <= k < list.len()
    &&& forall|j: int| 0 <= j < k ==> cost_after(s, #[trigger] list[j]) > cost_after(s, list[k])
    &&& forall|j: int|
        k <= j < list.len() ==> cost_after(s, #[trigger] list[j]) >= cost_after(s, list[k])
}

/// `moves` and `cost` are the first cheapest sequence of the list and its cost; of an empty list,
/// no moves at a cost beyond any other.
pub open spec fn is_best(s: Seq<u8>, list: Seq<Seq<Move>>, moves: Seq<Move>, cost: int) -> bool {
    if list.len() == 0 {
        moves.len() == 0 && cost == i64::MAX
    } else {
        exists|k: int| #[trigger] first_cheapest(s, list, k) && moves == list[k] && cost
            == cost_after(s, list[k])
    }
}

/// The first of the cheapest sequences of the list, and its cost.
pub fn best_candidate(state: &CubeState, list: &Vec<Vec<Move>>) -> (res: (Vec<Move>, i64))
    requires
        all_playable(contents(list@)),
    ensures
        is_best(state@, contents(list@), res.0@, res.1 as int),
{
    let mut best_cost: i64 = i64::MAX;
    let mut best_moves: Vec<Move> = Vec::new();
    let ghost tries = contents(list@);
    for i in 0..list.len()
        invariant
            tries == contents(list@),
            all_playable(tries),
            is_best(state@, tries.take(i as int), best_moves@, best_cost as int),
    {
        assert(tries[i as int] == list@[i as int]@);
        let ghost upto = tries.take(i as int + 1);
        let ghost before = tries.take(i as int);
        let mut sim = state.clone();
        sim.apply_seq(list[i].as_slice());
        let cost = sim.heuristic_cost();
        if cost < best_cost {
            best_cost = cost;
            best_moves = list[i].clone();
            assert(best_moves@ =~= upto[i as int]);
            assert forall|j: int| 0 <= j < i implies cost_after(state@, #[trigger] upto[j])
                > cost_after(state@, upto[i as int]) by {
                assert(upto[j] == before[j]);
            }
            assert(first_cheapest(state@, upto, i as int));
        } else {
            let ghost k = choose|k: int| #[trigger] first_cheapest(state@, before, k) && best_moves@
                == before[k] && best_cost == cost_after(state@, before[k]);
            assert forall|j: int| 0 <= j < k implies cost_after(state@, #[trigger] upto[j])
                > cost_after(state@, upto[k]) by {
                assert(upto[j] == before[j]);
            }
            assert forall|j: int| k <= j < upto.len() implies cost_after(state@, #[trigger] upto[j])
                >= cost_after(state@, upto[k]) by {
                if j < i {
                    assert(upto[j] == before[j]);
                }
            }
            assert(first_cheapest(state@, upto, k));
        }
    }
    assert(tries.take(list@.len() as int) =~= tries);
    (best_moves, best_cost)
}

/// What explorer `id` finds on the cube `state`: the first of the cheapest sequences that it
/// tries, with its cost; nothing if the cube is solved.
pub fn explore(id: usize, state: &CubeState) -> (res: Option<(Vec<Move>, i64)>)
    requires
        id_in_range(phase_of(state@), id as int),
    ensures
        res is None <==> phase_of(state@) == SolvePhase::Solved,
        res matches Some(found) ==> is_best(
            state@,
            explorer_tries(phase_of(state@), id as int),
            found.0@,
            found.1 as int,
        ),
{
    let phase = detect_phase(state);
    if phase == SolvePhase::Solved {
        return None;
    }
    let list = explorer_candidates(state, phase, id);
    proof {
        law_tries_playable(phase, id as int);
    }
    Some(best_candidate(state, &list))
}

/// Making the moves that the search found leaves as many cells to be solved as it says, and
/// nothing that was tried leaves fewer.
pub proof fn law_prediction_holds(s: Seq<u8>, list: Seq<Seq<Move>>, moves: Seq<Move>, cost: int)
    requires
        list.len() > 0,
        is_best(s, list, moves, cost),
    ensures
        TOTAL - solved_total(applied_all(s, moves)) == cost,
        forall|j: int| 0 <= j < list.len() ==> cost_after(s, #[trigger] list[j]) >= cost,
{
}

/// The `k`-th result is the first of those with the lowest predicted cost.
pub open spec fn first_lowest(results: Seq<ExplorerResult>, k: int) -> bool {
    &&& 0 <= k < results.len()
    &&& forall|j: int|
        0 <= j < k ==> (#[trigger] results[j]).predicted_cost > results[k].predicted_cost
    &&& forall|j: int|
        k <= j < results.len() ==> (#[trigger] results[j]).predicted_cost
            >= results[k].predicted_cost
}

/// Which of the results to carry out: the first of those with the lowest predicted cost.
pub fn select_best(results: &Vec<ExplorerResult>) -> (res: Option<usize>)
    ensures
        res is None <==> results@.len() == 0,
        res matches Some(k) ==> first_lowest(results@, k as int),
{
    if results.len() == 0 {
        return None;
    }
    let mut best: usize = 0;
    for i in 1..results.len()
        invariant
            best < i,
            i <= results@.len(),
            forall|j: int|
                0 <= j < best ==> (#[trigger] results@[j]).predicted_cost
                    > results@[best as int].predicted_cost,
            forall|j: int|
                best <= j < i ==> (#[trigger] results@[j]).predicted_cost
                    >= results@[best as int].predicted_cost,
    {
        if results[i].predicted_cost < results[best].predicted_cost {
            best = i;
        }
    }
    Some(best)
}

/// Lists of four, one for each layer, stand one after the other.
proof fn lemma_fours(lo: int, hi: int, tries: spec_fn(int) -> Seq<Seq<Move>>, l: int, i: int)
    requires
        lo <= hi,
        forall|m: int| (#[trigger] tries(m)).len() == 4,
        0 <= i < 4,
    ensures
        over_layers(lo, hi, tries).len() == 4 * (hi - lo),
        lo <= l < hi ==> over_layers(lo, hi, tries)[4 * (l - lo) + i] == tries(l)[i],
    decreases hi - lo,
{
    if lo < hi {
        lemma_fours(lo, hi - 1, tries, l, i);
    }
}

/// In the centre phase each explorer tries every layer of its range, in order and with all four
/// tries: the first four explorers a quarter of the cube each, the others twenty layers from ten
/// times their number on.
pub proof fn law_every_center_layer_is_tried(id: int, l: int)
    requires
        0 <= id,
        0 <= l < 200,
        if id < 4 {
            50 * id <= l < 50 * id + 50
        } else {
            10 * id <= l < 10 * id + 20
        },
    ensures
        ({
            let axis = if id < 2 || id == 5 {
                0u8
            } else if id < 4 || id == 6 {
                1u8
            } else {
                2u8
            };
            let next = if axis == 2 { 0u8 } else { (axis + 1) as u8 };
            let last = if axis == 0 { 2u8 } else { (axis - 1) as u8 };
            let there = Move { axis, layer: l as u16, cw: true };
            let back = Move { axis, layer: l as u16, cw: false };
            let list = explorer_tries(SolvePhase::CenterReduction, id);
            let k = 4 * (l - (if id < 4 { 50 * id } else { 10 * id }));
            &&& k + 4 <= list.len()
            &&& list[k] == seq![there]
            &&& list[k + 1] == seq![back]
            &&& list[k + 2] == seq![there, Move { axis: next, layer: 100, cw: true }, back]
            &&& list[k + 3] == seq![back, Move { axis: last, layer: 100, cw: false }, there]
        }),
{
    let (lo, hi) = center_layers(id);
    let tries = |m: int| center_candidates(center_face(id), m as u16);
    lemma_fours(lo, hi, tries, l, 0);
    lemma_fours(lo, hi, tries, l, 1);
    lemma_fours(lo, hi, tries, l, 2);
    lemma_fours(lo, hi, tries, l, 3);
    law_center_tries_are_turns_of_the_layer(center_face(id), l as u16);
}

/// In the centre phase an explorer tries nothing but the layers of its range.
pub proof fn law_center_tries_are_counted(id: int)
    requires
        0 <= id,
    ensures
        explorer_tries(SolvePhase::CenterReduction, id).len() == (if id < 4 {
            200
        } else if id <= 18 {
            80
        } else if id < 20 {
            40
        } else {
            0int
        }),
{
    let (lo, hi) = center_layers(id);
    if lo <= hi {
        let tries = |m: int| center_candidates(center_face(id), m as u16);
        lemma_fours(lo, hi, tries, lo, 0);
    }
}

/// In the edge phase the eight explorers together try every layer of the cube, each with its four
/// commutators, and each explorer twenty-five of them.
pub proof fn law_every_edge_layer_is_tried(l: int, i: int)
    requires
        0 <= l < 200,
        0 <= i < 4,
    ensures
        ({
            let list = explorer_tries(SolvePhase::EdgePairing, l / 25);
            let cw = i == 0 || i == 2;
            let (outer, inner) = if i < 2 {
                (0u8, 1u8)
            } else {
                (2u8, 0u8)
            };
            &&& 0 <= l / 25 < 8
            &&& list.len() == 100
            &&& list[4 * (l % 25) + i] == seq![
                Move { axis: outer, layer: 0, cw },
                Move { axis: inner, layer: l as u16, cw },
                Move { axis: outer, layer: 0, cw: !cw },
                Move { axis: inner, layer: l as u16, cw: !cw },
            ]
        }),
{
    let id = l / 25;
    let (lo, hi) = edge_layers(id);
    assert(id * (200int / 8) == id * 25) by (nonlinear_arith);
    let tries = |m: int| edge_candidates(m as u16);
    lemma_fours(lo, hi, tries, l, i);
    law_edge_tries_are_commutators(l as u16, i);
}

/// In the edge phase an explorer beyond the eighth has nothing to try.
pub proof fn law_edge_tries_end_with_the_cube(id: int)
    requires
        8 <= id,
    ensures
        explorer_tries(SolvePhase::EdgePairing, id).len() == 0,
{
    assert(id * (200int / 8) >= 200) by (nonlinear_arith)
        requires
            8 <= id,
    ;
}

/// Each of the eight explorers can search in every phase.
pub proof fn law_explorers_can_search(phase: SolvePhase, id: int)
    requires
        0 <= id < 8,
    ensures
        id_in_range(phase, id),
{
    assert((id + 1) * (200int / 8) <= 200) by (nonlinear_arith)
        requires
            0 <= id < 8,
    ;
}

/// When centres and edges are done every explorer tries every outer layer in both directions.
pub proof fn law_every_explorer_tries_the_outer_layers(
    phase: SolvePhase,
    id: int,
    axis: u8,
    last: bool,
    cw: bool,
)
    requires
        phase != SolvePhase::CenterReduction,
        phase != SolvePhase::EdgePairing,
        axis < 3,
    ensures
        ({
            let list = explorer_tries(phase, id);
            let k = (if last { 6int } else { 0 }) + 2 * axis + (if cw { 0int } else { 1 });
            &&& list.len() == 12
            &&& list[k] == seq![Move { axis, layer: if last { 199 } else { 0 }, cw }]
        }),
{
    law_every_outer_layer_is_tried(axis, last, cw);
}

/// The cost of moves is the number of cells that do not have the colour of their face after them.
pub proof fn law_cost_counts_open_cells(s: Seq<u8>, moves: Seq<Move>)
    ensures
        cost_after(s, moves) == 240000 - Set::new(
            |i: int| 0 <= i < 240000 && applied_all(s, moves)[i] == i / 40000,
        ).len(),
{
    law_solved_cells_are_counted(applied_all(s, moves));
}

/// What costs nothing solves the cube, and what solves the cube costs nothing.
pub proof fn law_solving_costs_nothing(s: Seq<u8>, moves: Seq<Move>)
    ensures
        cost_after(s, moves) >= 0,
        cost_after(s, moves) == 0 <==> (forall|i: int|
            0 <= i < 240000 ==> #[trigger] applied_all(s, moves)[i] == i / 40000),
{
    let t = applied_all(s, moves);
    law_solved_total_full(t);
    if cost_after(s, moves) == 0 {
        assert forall|i: int| 0 <= i < 240000 implies #[trigger] t[i] == i / 40000 by {
            lemma_flat_of_place(i);
            assert(cell(t, place(i)) == i / 40000);
        }
    }
    if forall|i: int| 0 <= i < 240000 ==> #[trigger] t[i] == i / 40000 {
        assert forall|p: Pos| p.on_cube() implies #[trigger] cell(t, p) == p.f by {
            lemma_place_of_flat(p);
            assert(t[p.flat()] == p.flat() / 40000);
        }
    }
}

/// What the search reports is one of the sequences tried; its cost is lower than that of every
/// sequence before it and not higher than that of any behind it. Where nothing is tried, there is
/// nothing to report.
pub proof fn law_best_is_the_first_of_the_cheapest(
    s: Seq<u8>,
    list: Seq<Seq<Move>>,
    moves: Seq<Move>,
    cost: int,
)
    requires
        is_best(s, list, moves, cost),
    ensures
        list.len() == 0 ==> moves.len() == 0 && cost == i64::MAX,
        list.len() > 0 ==> cost == cost_after(s, moves),
        list.len() > 0 ==> exists|k: int|
            0 <= k < list.len() && moves == #[trigger] list[k] && (forall|j: int|
                0 <= j < k ==> cost_after(s, #[trigger] list[j]) > cost),
        forall|j: int| 0 <= j < list.len() ==> cost_after(s, #[trigger] list[j]) >= cost,
{
    if list.len() > 0 {
        let k = choose|k: int| #[trigger] first_cheapest(s, list, k) && moves == list[k] && cost
            == cost_after(s, list[k]);
        assert(0 <= k < list.len() && moves == list[k]);
    }
}

/// If one turn of a layer of an explorer's range solves the cube in the centre phase, the explorer
/// finds a way to solve it.
pub proof fn law_last_turn_of_a_layer_is_found(
    s: Seq<u8>,
    t: Seq<u8>,
    id: int,
    l: int,
    cw: bool,
    moves: Seq<Move>,
    cost: int,
)
    requires
        0 <= id,
        0 <= l < 200,
        if id < 4 {
            50 * id <= l < 50 * id + 50
        } else {
            10 * id <= l < 10 * id + 20
        },
        ({
            let axis = if id < 2 || id == 5 {
                0int
            } else if id < 4 || id == 6 {
                1
            } else {
                2
            };
            t == turned(s, axis, l, cw)
        }),
        forall|i: int| 0 <= i < 240000 ==> #[trigger] t[i] == i / 40000,
        is_best(s, explorer_tries(SolvePhase::CenterReduction, id), moves, cost),
    ensures
        cost == 0,
        forall|i: int| 0 <= i < 240000 ==> #[trigger] applied_all(s, moves)[i] == i / 40000,
{
    let axis = if id < 2 || id == 5 {
        0u8
    } else if id < 4 || id == 6 {
        1u8
    } else {
        2u8
    };
    let mv = Move { axis, layer: l as u16, cw };
    let list = explorer_tries(SolvePhase::CenterReduction, id);
    let k = 4 * (l - (if id < 4 { 50 * id } else { 10 * id })) + (if cw { 0int } else { 1 });
    law_every_center_layer_is_tried(id, l);
    assert(list[k] == seq![mv]);
    law_moves_are_made_in_order(s, mv, Seq::empty());
    lemma_solving_try_is_found(s, t, list, k, moves, cost);
}

/// If a commutator with one of its layers solves the cube in the edge phase, the explorer finds a
/// way to solve it.
pub proof fn law_last_commutator_is_found(
    s: Seq<u8>,
    t: Seq<u8>,
    l: int,
    i: int,
    moves: Seq<Move>,
    cost: int,
)
    requires
        0 <= l < 200,
        0 <= i < 4,
        ({
            let cw = i == 0 || i == 2;
            let (outer, inner) = if i < 2 {
                (0u8, 1u8)
            } else {
                (2u8, 0u8)
            };
            t == applied_all(
                s,
                seq![
                    Move { axis: outer, layer: 0, cw },
                    Move { axis: inner, layer: l as u16, cw },
                    Move { axis: outer, layer: 0, cw: !cw },
                    Move { axis: inner, layer: l as u16, cw: !cw },
                ],
            )
        }),
        forall|j: int| 0 <= j < 240000 ==> #[trigger] t[j] == j / 40000,
        is_best(s, explorer_tries(SolvePhase::EdgePairing, l / 25), moves, cost),
    ensures
        cost == 0,
        forall|j: int| 0 <= j < 240000 ==> #[trigger] applied_all(s, moves)[j] == j / 40000,
{
    law_every_edge_layer_is_tried(l, i);
    let list = explorer_tries(SolvePhase::EdgePairing, l / 25);
    lemma_solving_try_is_found(s, t, list, 4 * (l % 25) + i, moves, cost);
}

/// If one turn of an outer layer solves the cube in the last phase, every explorer finds a way to
/// solve it.
pub proof fn law_last_outer_turn_is_found(
    s: Seq<u8>,
    t: Seq<u8>,
    id: int,
    axis: u8,
    last: bool,
    cw: bool,
    moves: Seq<Move>,
    cost: int,
)
    requires
        axis < 3,
        t == turned(s, axis as int, if last { 199 } else { 0 }, cw),
        forall|i: int| 0 <= i < 240000 ==> #[trigger] t[i] == i / 40000,
        is_best(s, explorer_tries(SolvePhase::ThreeByThreeReduction, id), moves, cost),
    ensures
        cost == 0,
        forall|i: int| 0 <= i < 240000 ==> #[trigger] applied_all(s, moves)[i] == i / 40000,
{
    let mv = Move { axis, layer: if last { 199 } else { 0 }, cw };
    let list = explorer_tries(SolvePhase::ThreeByThreeReduction, id);
    let k = (if last { 6int } else { 0 }) + 2 * axis + (if cw { 0int } else { 1 });
    law_every_explorer_tries_the_outer_layers(
        SolvePhase::ThreeByThreeReduction,
        id,
        axis,
        last,
        cw,
    );
    assert(list[k] == seq![mv]);
    law_moves_are_made_in_order(s, mv, Seq::empty());
    lemma_solving_try_is_found(s, t, list, k, moves, cost);
}

/// If a sequence of the list solves the cube, so does what the search reports.
proof fn lemma_solving_try_is_found(
    s: Seq<u8>,
    t: Seq<u8>,
    list: Seq<Seq<Move>>,
    k: int,
    moves: Seq<Move>,
    cost: int,
)
    requires
        0 <= k < list.len(),
        t == applied_all(s, list[k]),
        forall|i: int| 0 <= i < 240000 ==> #[trigger] t[i] == i / 40000,
        is_best(s, list, moves, cost),
    ensures
        cost == 0,
        forall|i: int| 0 <= i < 240000 ==> #[trigger] applied_all(s, moves)[i] == i / 40000,
{
    law_solving_costs_nothing(s, list[k]);
    law_best_is_the_first_of_the_cheapest(s, list, moves, cost);
    law_solving_costs_nothing(s, moves);
}

/// The result to carry out has a lower predicted cost than every result before it and none higher
/// than any behind it, and there is only one such result.
pub proof fn law_one_result_is_the_first_lowest(results: Seq<ExplorerResult>, k: int, j: int)
    requires
        first_lowest(results, k),
        0 <= j < results.len(),
    ensures
        0 <= k < results.len(),
        j < k ==> results[j].predicted_cost > results[k].predicted_cost,
        j > k ==> results[j].predicted_cost >= results[k].predicted_cost,
        j != k ==> !first_lowest(results, j),
{
}

} // verus!

//! What holds of turns in general: how they undo each other and what they leave alone.

use vstd::prelude::*;
use vstd::set_lib::{lemma_int_range, lemma_len_subset, lemma_map_size, set_int_range};

use crate::count_laws::{is_center, is_edge};
use crate::geometry::{
    cell, face_source, face_turned, lemma_face_turned_cell, lemma_flat_of_place, lemma_place_of_flat,
    lemma_same_cells, lemma_source_on_cube, lemma_turned_cell, place, source, turned, Pos,
};
use crate::geometry::{B_FACE, D_FACE, FACES, F_FACE, L_FACE, N, R_FACE, TOTAL, U_FACE};
use crate::moves::{all_valid, applied_all, Move};

verus! {

/// Row `r` of face `f` reads the same from both ends.
pub open spec fn row_symmetric(s: Seq<u8>, f: int, r: int) -> bool {
    forall|c: int|
        0 <= c < N ==> #[trigger] cell(s, Pos { f, r, c }) == cell(
            s,
            Pos { f, r, c: N - 1 - c },
        )
}

/// Column `c` of face `f` reads the same from both ends.
pub open spec fn column_symmetric(s: Seq<u8>, f: int, c: int) -> bool {
    forall|r: int|
        0 <= r < N ==> #[trigger] cell(s, Pos { f, r, c }) == cell(
            s,
            Pos { f, r: N - 1 - r, c },
        )
}

/// The states that `mv` followed by its reverse restores.
///
/// Around the front/back axis the two directions are not mirror images of each other: one after
/// the other, they read two of the four strips backwards.
pub open spec fn undone_by_reverse(s: Seq<u8>, mv: Move) -> bool {
    mv.axis == 2 ==> {
        &&& row_symmetric(s, D_FACE as int, mv.layer as int)
        &&& if mv.cw {
            column_symmetric(s, R_FACE as int, mv.layer as int)
        } else {
            column_symmetric(s, L_FACE as int, N - 1 - mv.layer)
        }
    }
}

/// The states in which three times `mv` is the same as its reverse once.
pub open spec fn thrice_is_reverse(s: Seq<u8>, mv: Move) -> bool {
    mv.axis == 2 ==> {
        &&& row_symmetric(s, D_FACE as int, mv.layer as int)
        &&& if mv.cw {
            column_symmetric(s, L_FACE as int, N - 1 - mv.layer)
        } else {
            column_symmetric(s, R_FACE as int, mv.layer as int)
        }
    }
}

/// Position `p` belongs to one of the four strips of `layer` around `axis`.
pub open spec fn on_strip(axis: int, layer: int, p: Pos) -> bool {
    if axis == 0 {
        ||| (p.f == F_FACE || p.f == R_FACE || p.f == L_FACE) && p.r == layer
        ||| p.f == B_FACE && p.r == N - 1 - layer
    } else if axis == 1 {
        ||| (p.f == U_FACE || p.f == F_FACE || p.f == D_FACE) && p.c == N - 1 - layer
        ||| p.f == B_FACE && p.c == layer
    } else {
        ||| p.f == U_FACE && p.r == N - 1 - layer
        ||| p.f == D_FACE && p.r == layer
        ||| p.f == R_FACE && p.c == layer
        ||| p.f == L_FACE && p.c == N - 1 - layer
    }
}

/// The flat indices of the cells of `s` that have colour `v`.
pub open spec fn color_cells(s: Seq<u8>, v: u8) -> Set<int> {
    Set::new(|i: int| 0 <= i < s.len() && s[i] == v)
}

/// The flat indices of the cells of `s` that have colour `v` and lie in the zone.
pub open spec fn zone_cells(s: Seq<u8>, v: u8, zone: spec_fn(Pos) -> bool) -> Set<int> {
    Set::new(|i: int| 0 <= i < s.len() && s[i] == v && zone(place(i)))
}

/// How many cells off the border of their face have colour `v`.
pub open spec fn center_color_count(s: Seq<u8>, v: u8) -> nat {
    zone_cells(s, v, |p: Pos| is_center(p)).len()
}

/// How many cells on the border of their face, but in no corner, have colour `v`.
pub open spec fn edge_color_count(s: Seq<u8>, v: u8) -> nat {
    zone_cells(s, v, |p: Pos| is_edge(p)).len()
}

/// How many cells in a corner of their face have colour `v`.
pub open spec fn corner_color_count(s: Seq<u8>, v: u8) -> nat {
    zone_cells(s, v, |p: Pos| !is_center(p) && !is_edge(p)).len()
}

/// How many cells of `s` have colour `v`.
pub open spec fn color_count(s: Seq<u8>, v: u8) -> nat {
    color_cells(s, v).len()
}

/// Where the content of `p` comes from over two turns.
proof fn lemma_two_turns_cell(
    s: Seq<u8>,
    axis: int,
    layer: int,
    cw1: bool,
    cw2: bool,
    p: Pos,
)
    requires
        p.on_cube(),
        0 <= layer < N,
    ensures
        cell(turned(turned(s, axis, layer, cw1), axis, layer, cw2), p) == cell(
            s,
            source(axis, layer, cw1, source(axis, layer, cw2, p)),
        ),
{
    lemma_source_on_cube(axis, layer, cw2, p);
    lemma_turned_cell(turned(s, axis, layer, cw1), axis, layer, cw2, p);
    lemma_turned_cell(s, axis, layer, cw1, source(axis, layer, cw2, p));
}

/// Where the content of `p` comes from over three equal turns.
proof fn lemma_three_turns_cell(s: Seq<u8>, axis: int, layer: int, cw: bool, p: Pos)
    requires
        p.on_cube(),
        0 <= layer < N,
    ensures
        ({
            let p2 = source(axis, layer, cw, source(axis, layer, cw, p));
            let s1 = turned(s, axis, layer, cw);
            let s3 = turned(turned(s1, axis, layer, cw), axis, layer, cw);
            cell(s3, p) == cell(s, source(axis, layer, cw, p2))
        }),
{
    let s1 = turned(s, axis, layer, cw);
    let p1 = source(axis, layer, cw, p);
    lemma_source_on_cube(axis, layer, cw, p);
    lemma_source_on_cube(axis, layer, cw, p1);
    lemma_two_turns_cell(s1, axis, layer, cw, cw, p);
    lemma_turned_cell(s, axis, layer, cw, source(axis, layer, cw, p1));
}

/// Followed back over four equal turns, a position leads to itself.
proof fn lemma_source_four_times(axis: int, layer: int, cw: bool, p: Pos)
    requires
        p.on_cube(),
        0 <= layer < N,
        0 <= axis < 3,
    ensures
        ({
            let p1 = source(axis, layer, cw, p);
            let p2 = source(axis, layer, cw, p1);
            let p3 = source(axis, layer, cw, p2);
            source(axis, layer, cw, p3) == p
        }),
{
}

/// Followed back over three equal turns, a position leads to where the reverse turn takes it
/// from, or, around the front/back axis, to the mirror image of that place on its strip.
proof fn lemma_source_three_times(axis: int, layer: int, cw: bool, p: Pos)
    requires
        p.on_cube(),
        0 <= layer < N,
        0 <= axis < 3,
    ensures
        ({
            let p2 = source(axis, layer, cw, source(axis, layer, cw, p));
            let p3 = source(axis, layer, cw, p2);
            let q = source(axis, layer, !cw, p);
            if axis == 2 && p.f == D_FACE && p.r == layer {
                &&& q == (Pos { f: q.f, r: p.c, c: q.c })
                &&& p3 == (Pos { f: q.f, r: N - 1 - q.r, c: q.c })
                &&& q.f == (if cw { L_FACE } else { R_FACE })
                &&& q.c == (if cw { N - 1 - layer } else { layer })
            } else if axis == 2 && p.f == (if cw { R_FACE } else { L_FACE }) && p.c == (if cw {
                layer
            } else {
                N - 1 - layer
            }) {
                &&& q == (Pos { f: D_FACE as int, r: layer, c: N - 1 - p.r })
                &&& p3 == (Pos { f: D_FACE as int, r: layer, c: p.r })
            } else {
                p3 == q
            }
        }),
{
}

/// A position is followed back over turns of two layers around one axis in either order.
proof fn lemma_sources_commute(axis: int, m: int, cw_m: bool, n: int, cw_n: bool, p: Pos)
    requires
        p.on_cube(),
        0 <= m < N,
        0 <= n < N,
        m != n,
        0 <= axis < 3,
    ensures
        source(axis, n, cw_n, source(axis, m, cw_m, p)) == source(
            axis,
            m,
            cw_m,
            source(axis, n, cw_n, p),
        ),
{
}

/// A move and its reverse, one after the other, restore every state but those in which the
/// front/back axis has an unsymmetrical strip to read backwards.
pub proof fn law_reverse_undoes(s: Seq<u8>, mv: Move)
    requires
        s.len() == TOTAL,
        mv.valid(),
        undone_by_reverse(s, mv),
    ensures
        mv.reversed().applied(mv.applied(s)) == s,
{
    let (axis, layer, cw) = (mv.axis as int, mv.layer as int, mv.cw);
    let t = mv.reversed().applied(mv.applied(s));
    assert forall|p: Pos| p.on_cube() implies #[trigger] cell(t, p) == cell(s, p) by {
        lemma_two_turns_cell(s, axis, layer, cw, !cw, p);
    }
    lemma_same_cells(t, s);
}

/// Where a move and its reverse restore the state, the strips that they read backwards were
/// symmetrical.
pub proof fn law_reverse_undoes_only(s: Seq<u8>, mv: Move)
    requires
        s.len() == TOTAL,
        mv.valid(),
        mv.reversed().applied(mv.applied(s)) == s,
    ensures
        undone_by_reverse(s, mv),
{
    let (axis, layer, cw) = (mv.axis as int, mv.layer as int, mv.cw);
    if axis == 2 {
        assert forall|c: int| 0 <= c < N implies #[trigger] cell(
            s,
            Pos { f: D_FACE as int, r: layer, c },
        ) == cell(s, Pos { f: D_FACE as int, r: layer, c: N - 1 - c }) by {
            lemma_two_turns_cell(s, axis, layer, cw, !cw, Pos { f: D_FACE as int, r: layer, c });
        }
        let (f, col) = if cw {
            (R_FACE as int, layer)
        } else {
            (L_FACE as int, N - 1 - layer)
        };
        assert forall|r: int| 0 <= r < N implies #[trigger] cell(s, Pos { f, r, c: col }) == cell(
            s,
            Pos { f, r: N - 1 - r, c: col },
        ) by {
            lemma_two_turns_cell(s, axis, layer, cw, !cw, Pos { f, r, c: col });
        }
    }
}

/// Four times the same move restores every state.
pub proof fn law_four_turns_restore(s: Seq<u8>, mv: Move)
    requires
        s.len() == TOTAL,
        mv.valid(),
    ensures
        mv.applied(mv.applied(mv.applied(mv.applied(s)))) == s,
{
    let (axis, layer, cw) = (mv.axis as int, mv.layer as int, mv.cw);
    let s2 = mv.applied(mv.applied(s));
    let s4 = mv.applied(mv.applied(s2));
    assert forall|p: Pos| p.on_cube() implies #[trigger] cell(s4, p) == cell(s, p) by {
        let p2 = source(axis, layer, cw, source(axis, layer, cw, p));
        lemma_source_on_cube(axis, layer, cw, p);
        lemma_source_on_cube(axis, layer, cw, source(axis, layer, cw, p));
        lemma_two_turns_cell(s2, axis, layer, cw, cw, p);
        lemma_two_turns_cell(s, axis, layer, cw, cw, p2);
        lemma_source_four_times(axis, layer, cw, p);
    }
    lemma_same_cells(s4, s);
}

/// Three times the same move is its reverse, on every state but those in which the front/back
/// axis has an unsymmetrical strip to read backwards.
pub proof fn law_three_turns_reverse(s: Seq<u8>, mv: Move)
    requires
        s.len() == TOTAL,
        mv.valid(),
        thrice_is_reverse(s, mv),
    ensures
        mv.applied(mv.applied(mv.applied(s))) == mv.reversed().applied(s),
{
    let (axis, layer, cw) = (mv.axis as int, mv.layer as int, mv.cw);
    let s3 = mv.applied(mv.applied(mv.applied(s)));
    let t = mv.reversed().applied(s);
    assert forall|p: Pos| p.on_cube() implies #[trigger] cell(s3, p) == cell(t, p) by {
        lemma_three_turns_cell(s, axis, layer, cw, p);
        lemma_turned_cell(s, axis, layer, !cw, p);
        lemma_source_three_times(axis, layer, cw, p);
        let q = source(axis, layer, !cw, p);
        assert(cell(s, q) == cell(s, Pos { f: q.f, r: q.r, c: q.c }));
    }
    lemma_same_cells(s3, t);
}

/// Where three times a move is the same as its reverse, the strips concerned were symmetrical.
pub proof fn law_three_turns_reverse_only(s: Seq<u8>, mv: Move)
    requires
        s.len() == TOTAL,
        mv.valid(),
        mv.applied(mv.applied(mv.applied(s))) == mv.reversed().applied(s),
    ensures
        thrice_is_reverse(s, mv),
{
    let (axis, layer, cw) = (mv.axis as int, mv.layer as int, mv.cw);
    if axis == 2 {
        let far = N - 1 - layer;
        assert forall|c: int| 0 <= c < N implies #[trigger] cell(
            s,
            Pos { f: D_FACE as int, r: layer, c },
        ) == cell(s, Pos { f: D_FACE as int, r: layer, c: N - 1 - c }) by {
            let p = if cw {
                Pos { f: R_FACE as int, r: N - 1 - c, c: layer }
            } else {
                Pos { f: L_FACE as int, r: N - 1 - c, c: far }
            };
            lemma_three_turns_cell(s, axis, layer, cw, p);
            lemma_turned_cell(s, axis, layer, !cw, p);
        }
        let (f, col) = if cw {
            (L_FACE as int, far)
        } else {
            (R_FACE as int, layer)
        };
        assert forall|r: int| 0 <= r < N implies #[trigger] cell(s, Pos { f, r, c: col }) == cell(
            s,
            Pos { f, r: N - 1 - r, c: col },
        ) by {
            let p = Pos { f: D_FACE as int, r: layer, c: r };
            lemma_three_turns_cell(s, axis, layer, cw, p);
            lemma_turned_cell(s, axis, layer, !cw, p);
        }
    }
}

/// An inner layer moves its four strips and nothing else: no face rotates with it.
pub proof fn law_inner_layer_moves_strips_only(s: Seq<u8>, mv: Move, p: Pos)
    requires
        s.len() == TOTAL,
        mv.valid(),
        0 < mv.layer < N - 1,
        p.on_cube(),
        !on_strip(mv.axis as int, mv.layer as int, p),
    ensures
        cell(mv.applied(s), p) == cell(s, p),
{
    lemma_turned_cell(s, mv.axis as int, mv.layer as int, mv.cw, p);
}

/// A turn sends no two positions to the same place: it only moves the cells about.
pub proof fn law_sources_are_distinct(axis: int, layer: int, cw: bool, p: Pos, q: Pos)
    requires
        p.on_cube(),
        q.on_cube(),
        0 <= layer < N,
        0 <= axis < 3,
        source(axis, layer, cw, p) == source(axis, layer, cw, q),
    ensures
        p == q,
{
    lemma_source_four_times(axis, layer, cw, p);
    lemma_source_four_times(axis, layer, cw, q);
}

/// A move keeps the number of cells of each colour in a zone that it does not lead out of.
proof fn lemma_move_keeps_zone(s: Seq<u8>, mv: Move, v: u8, zone: spec_fn(Pos) -> bool)
    requires
        s.len() == TOTAL,
        mv.valid(),
        forall|p: Pos|
            p.on_cube() ==> zone(#[trigger] source(mv.axis as int, mv.layer as int, mv.cw, p))
                == zone(p),
    ensures
        zone_cells(mv.applied(s), v, zone).len() == zone_cells(s, v, zone).len(),
{
    let (axis, layer, cw) = (mv.axis as int, mv.layer as int, mv.cw);
    let t = mv.applied(s);
    let from = |i: int| source(axis, layer, cw, place(i)).flat();
    let a = zone_cells(t, v, zone);
    let b = zone_cells(s, v, zone);
    lemma_int_range(0, TOTAL as int);
    assert(a.subset_of(set_int_range(0, TOTAL as int)));
    lemma_len_subset(a, set_int_range(0, TOTAL as int));
    assert forall|i: int| 0 <= i < TOTAL implies 0 <= #[trigger] from(i) < TOTAL && t[i]
        == s[from(i)] && zone(place(from(i))) == zone(place(i)) by {
        lemma_flat_of_place(i);
        lemma_source_on_cube(axis, layer, cw, place(i));
        lemma_place_of_flat(source(axis, layer, cw, place(i)));
    }
    assert forall|i: int, j: int|
        a.contains(i) && a.contains(j) && #[trigger] from(i) == #[trigger] from(j) implies i
        == j by {
        lemma_flat_of_place(i);
        lemma_flat_of_place(j);
        lemma_source_on_cube(axis, layer, cw, place(i));
        lemma_source_on_cube(axis, layer, cw, place(j));
        lemma_place_of_flat(source(axis, layer, cw, place(i)));
        lemma_place_of_flat(source(axis, layer, cw, place(j)));
        law_sources_are_distinct(axis, layer, cw, place(i), place(j));
    }
    assert(a.map(from) =~= b) by {
        assert forall|j: int| b.contains(j) implies a.map(from).contains(j) by {
            lemma_flat_of_place(j);
            let p1 = source(axis, layer, cw, place(j));
            let p2 = source(axis, layer, cw, p1);
            let p3 = source(axis, layer, cw, p2);
            lemma_source_on_cube(axis, layer, cw, place(j));
            lemma_source_on_cube(axis, layer, cw, p1);
            lemma_source_on_cube(axis, layer, cw, p2);
            lemma_source_four_times(axis, layer, cw, place(j));
            let i = p3.flat();
            lemma_place_of_flat(p3);
            assert(from(i) == j);
            assert(a.contains(i));
        }
    }
    lemma_map_size(a, b, from);
}

/// A move keeps the number of cells of each colour.
pub proof fn law_move_keeps_colors(s: Seq<u8>, mv: Move, v: u8)
    requires
        s.len() == TOTAL,
        mv.valid(),
    ensures
        color_count(mv.applied(s), v) == color_count(s, v),
{
    let everywhere = |p: Pos| true;
    lemma_move_keeps_zone(s, mv, v, everywhere);
    assert(zone_cells(s, v, everywhere) =~= color_cells(s, v));
    assert(zone_cells(mv.applied(s), v, everywhere) =~= color_cells(mv.applied(s), v));
}

/// A turn takes centre cells to centres, edge cells to edges and corner cells to corners.
pub proof fn law_turn_keeps_zones(axis: int, layer: int, cw: bool, p: Pos)
    requires
        p.on_cube(),
        0 <= layer < N,
        0 <= axis < 3,
    ensures
        is_center(source(axis, layer, cw, p)) == is_center(p),
        is_edge(source(axis, layer, cw, p)) == is_edge(p),
{
}

/// A move keeps the number of cells of each colour among the centres, among the edges and among
/// the corners.
pub proof fn law_move_keeps_colors_of_zones(s: Seq<u8>, mv: Move, v: u8)
    requires
        s.len() == TOTAL,
        mv.valid(),
    ensures
        center_color_count(mv.applied(s), v) == center_color_count(s, v),
        edge_color_count(mv.applied(s), v) == edge_color_count(s, v),
        corner_color_count(mv.applied(s), v) == corner_color_count(s, v),
{
    let (axis, layer, cw) = (mv.axis as int, mv.layer as int, mv.cw);
    assert forall|p: Pos| p.on_cube() implies is_center(#[trigger] source(axis, layer, cw, p))
        == is_center(p) && is_edge(source(axis, layer, cw, p)) == is_edge(p) by {
        law_turn_keeps_zones(axis, layer, cw, p);
    }
    lemma_move_keeps_zone(s, mv, v, |p: Pos| is_center(p));
    lemma_move_keeps_zone(s, mv, v, |p: Pos| is_edge(p));
    lemma_move_keeps_zone(s, mv, v, |p: Pos| !is_center(p) && !is_edge(p));
}

/// A sequence of moves keeps the number of cells of each colour.
pub proof fn law_moves_keep_colors(s: Seq<u8>, moves: Seq<Move>, v: u8)
    requires
        s.len() == TOTAL,
        all_valid(moves),
    ensures
        applied_all(s, moves).len() == TOTAL,
        color_count(applied_all(s, moves), v) == color_count(s, v),
    decreases moves.len(),
{
    if moves.len() > 0 {
        law_moves_keep_colors(s, moves.drop_last(), v);
        law_move_keeps_colors(applied_all(s, moves.drop_last()), moves.last(), v);
    }
}

/// A sequence of moves keeps the number of cells of each colour among the centres, among the edges
/// and among the corners.
pub proof fn law_moves_keep_colors_of_zones(s: Seq<u8>, moves: Seq<Move>, v: u8)
    requires
        s.len() == TOTAL,
        all_valid(moves),
    ensures
        center_color_count(applied_all(s, moves), v) == center_color_count(s, v),
        edge_color_count(applied_all(s, moves), v) == edge_color_count(s, v),
        corner_color_count(applied_all(s, moves), v) == corner_color_count(s, v),
    decreases moves.len(),
{
    if moves.len() > 0 {
        law_moves_keep_colors_of_zones(s, moves.drop_last(), v);
        law_moves_keep_colors(s, moves.drop_last(), v);
        law_move_keeps_colors_of_zones(applied_all(s, moves.drop_last()), moves.last(), v);
    }
}

/// Turns of two layers around the same axis can be made in either order.
pub proof fn law_layers_of_an_axis_commute(s: Seq<u8>, a: Move, b: Move)
    requires
        s.len() == TOTAL,
        a.valid(),
        b.valid(),
        a.axis == b.axis,
        a.layer != b.layer,
    ensures
        a.applied(b.applied(s)) == b.applied(a.applied(s)),
{
    let axis = a.axis as int;
    let (m, n) = (a.layer as int, b.layer as int);
    let t = a.applied(b.applied(s));
    let u = b.applied(a.applied(s));
    assert forall|p: Pos| p.on_cube() implies #[trigger] cell(t, p) == cell(u, p) by {
        lemma_source_on_cube(axis, m, a.cw, p);
        lemma_source_on_cube(axis, n, b.cw, p);
        lemma_turned_cell(b.applied(s), axis, m, a.cw, p);
        lemma_turned_cell(s, axis, n, b.cw, source(axis, m, a.cw, p));
        lemma_turned_cell(a.applied(s), axis, n, b.cw, p);
        lemma_turned_cell(s, axis, m, a.cw, source(axis, n, b.cw, p));
        lemma_sources_commute(axis, m, a.cw, n, b.cw, p);
    }
    lemma_same_cells(t, u);
}

/// Rotating one face by a quarter in one direction and then in the other restores every state.
pub proof fn law_face_rotations_undo(s: Seq<u8>, f: int, cw: bool)
    requires
        s.len() == TOTAL,
        0 <= f < FACES,
    ensures
        face_turned(face_turned(s, f, cw), f, !cw) == s,
{
    let t = face_turned(s, f, cw);
    let u = face_turned(t, f, !cw);
    assert forall|p: Pos| p.on_cube() implies #[trigger] cell(u, p) == cell(s, p) by {
        let q = face_source(!cw, p);
        assert(face_source(cw, q) == p);
        lemma_face_turned_cell(t, f, !cw, p);
        lemma_face_turned_cell(s, f, cw, p);
        lemma_face_turned_cell(s, f, cw, q);
    }
    lemma_same_cells(u, s);
}

/// Making two sequences one after the other is making their concatenation.
pub proof fn law_moves_concatenate(s: Seq<u8>, first: Seq<Move>, second: Seq<Move>)
    ensures
        applied_all(applied_all(s, first), second) == applied_all(s, first + second),
    decreases second.len(),
{
    if second.len() == 0 {
        assert(first + second =~= first);
    } else {
        law_moves_concatenate(s, first, second.drop_last());
        assert((first + second).drop_last() =~= first + second.drop_last());
        assert((first + second).last() == second.last());
    }
}

} // verus!

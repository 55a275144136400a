//! Which way a turn carries the cells: from where to where, for every layer and every cell.

use vstd::prelude::*;

use crate::geometry::{
    cell, face_turned, index, lemma_face_turned_cell, lemma_place_of_flat,
    lemma_source_on_cube, lemma_turned_cell, place, source, turned, Pos,
};
use crate::geometry::{B_FACE, D_FACE, FACES, F_FACE, L_FACE, N, R_FACE, TOTAL, U_FACE};
use crate::moves::{applied_all, Move};

verus! {

/// The cells are numbered along the rows, the rows of a face one after the other, and so the
/// faces: the next column is one further, the next row 200 further, the next face 40000 further.
pub proof fn law_cells_are_numbered_in_order(f: int, r: int, c: int)
    ensures
        index(0, 0, 0) == 0,
        index(f, r, c + 1) == index(f, r, c) + 1,
        index(f, r + 1, c) == index(f, r, c) + 200,
        index(f + 1, r, c) == index(f, r, c) + 40000,
{
}

/// A position on the cube and its number determine each other.
pub proof fn law_numbers_and_positions_agree(f: int, r: int, c: int)
    requires
        0 <= f < 6,
        0 <= r < 200,
        0 <= c < 200,
    ensures
        place(40000 * f + 200 * r + c) == (Pos { f, r, c }),
        index(f, r, c) == 40000 * f + 200 * r + c,
        forall|s: Seq<u8>| #[trigger] cell(s, Pos { f, r, c }) == s[40000 * f + 200 * r + c],
{
    lemma_place_of_flat(Pos { f, r, c });
}

/// The faces are those of the six colours, in the order upper, right, front, lower, left, back.
pub proof fn law_faces_are_in_order()
    ensures
        U_FACE == 0 && R_FACE == 1 && F_FACE == 2 && D_FACE == 3 && L_FACE == 4 && B_FACE == 5,
        FACES == 6 && N == 200 && TOTAL == 6 * 200 * 200,
{
}

/// Turned clockwise, each horizontal layer carries its row from the left face to the front, from
/// the front to the right, from the right to the back and from the back to the left; turned
/// counter-clockwise, it carries them the other way. On the back face the row counts from the
/// bottom and reads backwards.
pub proof fn law_horizontal_layers_carry_rows(s: Seq<u8>, layer: int, k: int)
    requires
        s.len() == TOTAL,
        0 <= layer < 200,
        0 <= k < 200,
    ensures
        ({
            let front = Pos { f: 2, r: layer, c: k };
            let right = Pos { f: 1, r: layer, c: k };
            let back = Pos { f: 5, r: 199 - layer, c: 199 - k };
            let left = Pos { f: 4, r: layer, c: k };
            let t = turned(s, 0, layer, true);
            let u = turned(s, 0, layer, false);
            &&& cell(t, front) == cell(s, left)
            &&& cell(t, right) == cell(s, front)
            &&& cell(t, back) == cell(s, right)
            &&& cell(t, left) == cell(s, back)
            &&& cell(u, left) == cell(s, front)
            &&& cell(u, front) == cell(s, right)
            &&& cell(u, right) == cell(s, back)
            &&& cell(u, back) == cell(s, left)
        }),
{
    let front = Pos { f: 2, r: layer, c: k };
    let right = Pos { f: 1, r: layer, c: k };
    let back = Pos { f: 5, r: 199 - layer, c: 199 - k };
    let left = Pos { f: 4, r: layer, c: k };
    lemma_both_directions(s, 0, layer, front);
    lemma_both_directions(s, 0, layer, right);
    lemma_both_directions(s, 0, layer, back);
    lemma_both_directions(s, 0, layer, left);
}

/// Turned clockwise, each vertical layer carries its column from the front face to the upper, from
/// the upper to the back, from the back to the lower and from the lower to the front; turned
/// counter-clockwise, it carries them the other way. On the back face the column counts from the
/// left and reads from the bottom up.
pub proof fn law_vertical_layers_carry_columns(s: Seq<u8>, layer: int, k: int)
    requires
        s.len() == TOTAL,
        0 <= layer < 200,
        0 <= k < 200,
    ensures
        ({
            let front = Pos { f: 2, r: k, c: 199 - layer };
            let upper = Pos { f: 0, r: k, c: 199 - layer };
            let back = Pos { f: 5, r: 199 - k, c: layer };
            let lower = Pos { f: 3, r: k, c: 199 - layer };
            let t = turned(s, 1, layer, true);
            let u = turned(s, 1, layer, false);
            &&& cell(t, upper) == cell(s, front)
            &&& cell(t, back) == cell(s, upper)
            &&& cell(t, lower) == cell(s, back)
            &&& cell(t, front) == cell(s, lower)
            &&& cell(u, front) == cell(s, upper)
            &&& cell(u, upper) == cell(s, back)
            &&& cell(u, back) == cell(s, lower)
            &&& cell(u, lower) == cell(s, front)
        }),
{
    let front = Pos { f: 2, r: k, c: 199 - layer };
    let upper = Pos { f: 0, r: k, c: 199 - layer };
    let back = Pos { f: 5, r: 199 - k, c: layer };
    let lower = Pos { f: 3, r: k, c: 199 - layer };
    lemma_both_directions(s, 1, layer, front);
    lemma_both_directions(s, 1, layer, upper);
    lemma_both_directions(s, 1, layer, back);
    lemma_both_directions(s, 1, layer, lower);
}

/// Turned clockwise, each depth layer carries its strip from the upper face to the right, from the
/// right to the lower, from the lower to the left and from the left to the upper; turned
/// counter-clockwise, it carries them the other way, and the strip of the lower face then reads
/// from its other end.
pub proof fn law_depth_layers_carry_strips(s: Seq<u8>, layer: int, k: int)
    requires
        s.len() == TOTAL,
        0 <= layer < 200,
        0 <= k < 200,
    ensures
        ({
            let upper = Pos { f: 0, r: 199 - layer, c: k };
            let right = Pos { f: 1, r: k, c: layer };
            let lower = Pos { f: 3, r: layer, c: k };
            let lower_end = Pos { f: 3, r: layer, c: 199 - k };
            let left = Pos { f: 4, r: 199 - k, c: 199 - layer };
            let t = turned(s, 2, layer, true);
            let u = turned(s, 2, layer, false);
            &&& cell(t, right) == cell(s, upper)
            &&& cell(t, lower) == cell(s, right)
            &&& cell(t, left) == cell(s, lower)
            &&& cell(t, upper) == cell(s, left)
            &&& cell(u, upper) == cell(s, right)
            &&& cell(u, right) == cell(s, lower_end)
            &&& cell(u, lower_end) == cell(s, left)
            &&& cell(u, left) == cell(s, upper)
        }),
{
    let upper = Pos { f: 0, r: 199 - layer, c: k };
    let right = Pos { f: 1, r: k, c: layer };
    let lower = Pos { f: 3, r: layer, c: k };
    let lower_end = Pos { f: 3, r: layer, c: 199 - k };
    let left = Pos { f: 4, r: 199 - k, c: 199 - layer };
    lemma_both_directions(s, 2, layer, upper);
    lemma_both_directions(s, 2, layer, right);
    lemma_both_directions(s, 2, layer, lower);
    lemma_both_directions(s, 2, layer, lower_end);
    lemma_both_directions(s, 2, layer, left);
}

proof fn lemma_both_directions(s: Seq<u8>, axis: int, layer: int, p: Pos)
    requires
        p.on_cube(),
    ensures
        cell(turned(s, axis, layer, true), p) == cell(s, source(axis, layer, true, p)),
        cell(turned(s, axis, layer, false), p) == cell(s, source(axis, layer, false, p)),
{
    lemma_turned_cell(s, axis, layer, true, p);
    lemma_turned_cell(s, axis, layer, false, p);
}

/// Rotated clockwise, a face takes its rows to its columns: the upper row becomes the right
/// column. Counter-clockwise, it becomes the left column. Every other face stays as it is.
pub proof fn law_faces_rotate_rows_into_columns(s: Seq<u8>, f: int, g: int, r: int, c: int)
    requires
        s.len() == TOTAL,
        0 <= f < 6,
        0 <= g < 6,
        0 <= r < 200,
        0 <= c < 200,
    ensures
        ({
            let from = Pos { f: g, r, c };
            let t = face_turned(s, f, true);
            let u = face_turned(s, f, false);
            if g == f {
                &&& cell(t, Pos { f, r: c, c: 199 - r }) == cell(s, from)
                &&& cell(u, Pos { f, r: 199 - c, c: r }) == cell(s, from)
            } else {
                &&& cell(t, from) == cell(s, from)
                &&& cell(u, from) == cell(s, from)
            }
        }),
{
    lemma_face_turned_cell(s, f, true, Pos { f, r: c, c: 199 - r });
    lemma_face_turned_cell(s, f, false, Pos { f, r: 199 - c, c: r });
    lemma_face_turned_cell(s, f, true, Pos { f: g, r, c });
    lemma_face_turned_cell(s, f, false, Pos { f: g, r, c });
}

/// The first layer of an axis rotates the face that it lies on in the direction of the turn, and
/// the last layer rotates the opposite face, which is seen from the other side, in the other.
pub proof fn law_outer_layers_rotate_their_faces(s: Seq<u8>, axis: int, cw: bool, r: int, c: int)
    requires
        s.len() == TOTAL,
        0 <= axis < 3,
        0 <= r < 200,
        0 <= c < 200,
    ensures
        ({
            let (near, far) = (axis, axis + 3);
            let t = turned(s, axis, 0, cw);
            let u = turned(s, axis, 199, cw);
            if cw {
                &&& cell(t, Pos { f: near, r: c, c: 199 - r }) == cell(s, Pos { f: near, r, c })
                &&& cell(u, Pos { f: far, r: 199 - c, c: r }) == cell(s, Pos { f: far, r, c })
            } else {
                &&& cell(t, Pos { f: near, r: 199 - c, c: r }) == cell(s, Pos { f: near, r, c })
                &&& cell(u, Pos { f: far, r: c, c: 199 - r }) == cell(s, Pos { f: far, r, c })
            }
        }),
{
    let (near, far) = (axis, axis + 3);
    lemma_turned_cell(s, axis, 0, cw, Pos { f: near, r: c, c: 199 - r });
    lemma_turned_cell(s, axis, 0, cw, Pos { f: near, r: 199 - c, c: r });
    lemma_turned_cell(s, axis, 199, cw, Pos { f: far, r: c, c: 199 - r });
    lemma_turned_cell(s, axis, 199, cw, Pos { f: far, r: 199 - c, c: r });
}

/// The layer around `axis` that position `p` belongs to, counted from the upper, right or front
/// face.
pub open spec fn layer_of(axis: int, p: Pos) -> int {
    if p.f == axis {
        0
    } else if p.f == axis + 3 {
        199
    } else if axis == 0 {
        if p.f == 5 {
            199 - p.r
        } else {
            p.r
        }
    } else if axis == 1 {
        if p.f == 5 {
            p.c
        } else {
            199 - p.c
        }
    } else if p.f == 0 {
        199 - p.r
    } else if p.f == 3 {
        p.r
    } else if p.f == 1 {
        p.c
    } else {
        199 - p.c
    }
}

/// A turn leaves every cell alone that does not belong to its layer.
pub proof fn law_other_layers_stay(s: Seq<u8>, axis: int, layer: int, cw: bool, p: Pos)
    requires
        s.len() == TOTAL,
        0 <= axis < 3,
        0 <= layer < 200,
        0 <= p.f < 6,
        0 <= p.r < 200,
        0 <= p.c < 200,
        layer_of(axis, p) != layer,
    ensures
        cell(turned(s, axis, layer, cw), p) == cell(s, p),
{
    lemma_turned_cell(s, axis, layer, cw, p);
}

/// A move turns the layer that it names around the axis that it names, in its direction; its
/// reverse turns the same layer in the other direction.
pub proof fn law_move_turns_what_it_names(s: Seq<u8>, mv: Move)
    ensures
        mv.applied(s) == turned(s, mv.axis as int, mv.layer as int, mv.cw),
        mv.reversed().applied(s) == turned(s, mv.axis as int, mv.layer as int, !mv.cw),
        mv.reversed().axis == mv.axis && mv.reversed().layer == mv.layer && mv.reversed().cw
            != mv.cw,
        mv.axis < 3 && mv.layer < 200 <==> mv.valid(),
{
}

/// No moves change nothing, one move is made as it is, and of several the first is made first.
pub proof fn law_moves_are_made_in_order(s: Seq<u8>, mv: Move, rest: Seq<Move>)
    ensures
        applied_all(s, Seq::<Move>::empty()) == s,
        applied_all(s, seq![mv]) == mv.applied(s),
        applied_all(s, seq![mv] + rest) == applied_all(mv.applied(s), rest),
    decreases rest.len(),
{
    assert(seq![mv].drop_last() =~= Seq::<Move>::empty());
    assert(applied_all(s, seq![mv]) == mv.applied(applied_all(s, seq![mv].drop_last())));
    if rest.len() == 0 {
        assert(seq![mv] + rest =~= seq![mv]);
    } else {
        law_moves_are_made_in_order(s, mv, rest.drop_last());
        assert((seq![mv] + rest).drop_last() =~= seq![mv] + rest.drop_last());
        assert((seq![mv] + rest).last() == rest.last());
    }
}

/// One turn of each of the first `n` layers around `axis`, all in the same direction.
pub open spec fn layer_by_layer(axis: int, cw: bool, n: nat) -> Seq<Move> {
    Seq::new(n, |l: int| Move { axis: axis as u8, layer: l as u16, cw })
}

proof fn lemma_layer_by_layer(s: Seq<u8>, axis: int, cw: bool, n: nat, p: Pos)
    requires
        s.len() == TOTAL,
        0 <= axis < 3,
        n <= 200,
        p.on_cube(),
    ensures
        cell(applied_all(s, layer_by_layer(axis, cw, n)), p) == (if layer_of(axis, p) < n {
            cell(s, source(axis, layer_of(axis, p), cw, p))
        } else {
            cell(s, p)
        }),
    decreases n,
{
    if n > 0 {
        let m = (n - 1) as nat;
        let moves = layer_by_layer(axis, cw, n);
        assert(moves.drop_last() =~= layer_by_layer(axis, cw, m));
        let before = applied_all(s, layer_by_layer(axis, cw, m));
        let q = source(axis, m as int, cw, p);
        lemma_source_on_cube(axis, m as int, cw, p);
        lemma_turned_cell(before, axis, m as int, cw, p);
        lemma_layer_by_layer(s, axis, cw, m, q);
        assert(0 <= layer_of(axis, p) < 200);
        if layer_of(axis, p) == m {
            assert(layer_of(axis, q) == m);
        } else {
            assert(q == p);
        }
    }
}

/// Turning every horizontal layer clockwise turns the whole cube: the left face comes to the
/// front, the front to the right, the right to the back and the back to the left, while the upper
/// face rotates clockwise and the lower, which is seen from below, counter-clockwise.
pub proof fn law_all_horizontal_layers_turn_the_cube(s: Seq<u8>, r: int, c: int)
    requires
        s.len() == TOTAL,
        0 <= r < 200,
        0 <= c < 200,
    ensures
        ({
            let t = applied_all(s, layer_by_layer(0, true, 200));
            &&& cell(t, Pos { f: 2, r, c }) == cell(s, Pos { f: 4, r, c })
            &&& cell(t, Pos { f: 1, r, c }) == cell(s, Pos { f: 2, r, c })
            &&& cell(t, Pos { f: 5, r, c }) == cell(s, Pos { f: 1, r: 199 - r, c: 199 - c })
            &&& cell(t, Pos { f: 4, r, c }) == cell(s, Pos { f: 5, r: 199 - r, c: 199 - c })
            &&& cell(t, Pos { f: 0, r: c, c: 199 - r }) == cell(s, Pos { f: 0, r, c })
            &&& cell(t, Pos { f: 3, r: 199 - c, c: r }) == cell(s, Pos { f: 3, r, c })
        }),
{
    lemma_layer_by_layer(s, 0, true, 200, Pos { f: 2, r, c });
    lemma_layer_by_layer(s, 0, true, 200, Pos { f: 1, r, c });
    lemma_layer_by_layer(s, 0, true, 200, Pos { f: 5, r, c });
    lemma_layer_by_layer(s, 0, true, 200, Pos { f: 4, r, c });
    lemma_layer_by_layer(s, 0, true, 200, Pos { f: 0, r: c, c: 199 - r });
    lemma_layer_by_layer(s, 0, true, 200, Pos { f: 3, r: 199 - c, c: r });
}

/// Turning every vertical layer clockwise turns the whole cube: the front face comes up, the upper
/// to the back, the back to the bottom and the lower to the front, while the right face rotates
/// clockwise and the left counter-clockwise.
pub proof fn law_all_vertical_layers_turn_the_cube(s: Seq<u8>, r: int, c: int)
    requires
        s.len() == TOTAL,
        0 <= r < 200,
        0 <= c < 200,
    ensures
        ({
            let t = applied_all(s, layer_by_layer(1, true, 200));
            &&& cell(t, Pos { f: 0, r, c }) == cell(s, Pos { f: 2, r, c })
            &&& cell(t, Pos { f: 5, r, c }) == cell(s, Pos { f: 0, r: 199 - r, c: 199 - c })
            &&& cell(t, Pos { f: 3, r, c }) == cell(s, Pos { f: 5, r: 199 - r, c: 199 - c })
            &&& cell(t, Pos { f: 2, r, c }) == cell(s, Pos { f: 3, r, c })
            &&& cell(t, Pos { f: 1, r: c, c: 199 - r }) == cell(s, Pos { f: 1, r, c })
            &&& cell(t, Pos { f: 4, r: 199 - c, c: r }) == cell(s, Pos { f: 4, r, c })
        }),
{
    lemma_layer_by_layer(s, 1, true, 200, Pos { f: 0, r, c });
    lemma_layer_by_layer(s, 1, true, 200, Pos { f: 5, r, c });
    lemma_layer_by_layer(s, 1, true, 200, Pos { f: 3, r, c });
    lemma_layer_by_layer(s, 1, true, 200, Pos { f: 2, r, c });
    lemma_layer_by_layer(s, 1, true, 200, Pos { f: 1, r: c, c: 199 - r });
    lemma_layer_by_layer(s, 1, true, 200, Pos { f: 4, r: 199 - c, c: r });
}

/// Turning every depth layer clockwise carries the upper face to the right, the right to the
/// lower, the lower to the left and the left to the upper, while the front face rotates clockwise
/// and the back counter-clockwise.
pub proof fn law_all_depth_layers_turn_the_cube(s: Seq<u8>, r: int, c: int)
    requires
        s.len() == TOTAL,
        0 <= r < 200,
        0 <= c < 200,
    ensures
        ({
            let t = applied_all(s, layer_by_layer(2, true, 200));
            &&& cell(t, Pos { f: 1, r: c, c: 199 - r }) == cell(s, Pos { f: 0, r, c })
            &&& cell(t, Pos { f: 3, r: c, c: r }) == cell(s, Pos { f: 1, r, c })
            &&& cell(t, Pos { f: 4, r: 199 - c, c: 199 - r }) == cell(s, Pos { f: 3, r, c })
            &&& cell(t, Pos { f: 0, r: c, c: 199 - r }) == cell(s, Pos { f: 4, r, c })
            &&& cell(t, Pos { f: 2, r: c, c: 199 - r }) == cell(s, Pos { f: 2, r, c })
            &&& cell(t, Pos { f: 5, r: 199 - c, c: r }) == cell(s, Pos { f: 5, r, c })
        }),
{
    lemma_layer_by_layer(s, 2, true, 200, Pos { f: 1, r: c, c: 199 - r });
    lemma_layer_by_layer(s, 2, true, 200, Pos { f: 3, r: c, c: r });
    lemma_layer_by_layer(s, 2, true, 200, Pos { f: 4, r: 199 - c, c: 199 - r });
    lemma_layer_by_layer(s, 2, true, 200, Pos { f: 0, r: c, c: 199 - r });
    lemma_layer_by_layer(s, 2, true, 200, Pos { f: 2, r: c, c: 199 - r });
    lemma_layer_by_layer(s, 2, true, 200, Pos { f: 5, r: 199 - c, c: r });
}

} // verus!

//! The shape of the cube: where each cell lies and where a turn brings it from.
//!
//! A cube has six faces of `N` by `N` cells. The whole state is one flat sequence of `TOTAL`
//! cells; [`index`] and [`place`] translate between a flat index and a position on a face.
//! A turn is described by its [`source`]: the position whose content arrives at a given position.

use vstd::prelude::*;

verus! {

/// Order of the cube: the number of cells along one edge of a face.
pub const N: usize = 200;

/// Number of faces.
pub const FACES: usize = 6;

/// Cells on one face.
pub const FACE_SIZE: usize = N * N;

/// Cells on the whole cube.
pub const TOTAL: usize = FACES * FACE_SIZE;

/// Upper face (white).
pub const U_FACE: usize = 0;

/// Right face (red).
pub const R_FACE: usize = 1;

/// Front face (green).
pub const F_FACE: usize = 2;

/// Lower face (yellow).
pub const D_FACE: usize = 3;

/// Left face (orange).
pub const L_FACE: usize = 4;

/// Back face (blue).
pub const B_FACE: usize = 5;

/// A position on the cube: face, row and column.
pub struct Pos {
    pub f: int,
    pub r: int,
    pub c: int,
}

/// The flat index of row `r`, column `c` of face `f`.
pub open spec fn index(f: int, r: int, c: int) -> int {
    f * FACE_SIZE + r * N + c
}

/// The position that flat index `i` stands for.
pub open spec fn place(i: int) -> Pos {
    Pos { f: i / FACE_SIZE as int, r: i % FACE_SIZE as int / N as int, c: i % N as int }
}

impl Pos {
    /// Face, row and column are all in range.
    pub open spec fn on_cube(self) -> bool {
        &&& 0 <= self.f < FACES
        &&& 0 <= self.r < N
        &&& 0 <= self.c < N
    }

    /// The flat index of this position.
    pub open spec fn flat(self) -> int {
        index(self.f, self.r, self.c)
    }
}

/// The content of position `p` in the cells `s`.
pub open spec fn cell(s: Seq<u8>, p: Pos) -> u8 {
    s[p.flat()]
}

/// The position whose content arrives at `p` when `p`'s face is rotated by a quarter.
pub open spec fn face_source(cw: bool, p: Pos) -> Pos {
    if cw {
        Pos { f: p.f, r: N - 1 - p.c, c: p.r }
    } else {
        Pos { f: p.f, r: p.c, c: N - 1 - p.r }
    }
}

/// The position whose content arrives at `p` when horizontal layer `layer` is turned.
///
/// Layer 0 lies at the upper face, layer `N - 1` at the lower face. Clockwise is seen from
/// above; the lower face then rotates the other way round. The back face is stored upside down:
/// the layer is its row `N - 1 - layer`, read backwards.
pub open spec fn u_source(layer: int, cw: bool, p: Pos) -> Pos {
    let back = N - 1 - layer;
    if p.f == F_FACE && p.r == layer {
        Pos { f: if cw { L_FACE as int } else { R_FACE as int }, r: layer, c: p.c }
    } else if p.f == (if cw { L_FACE } else { R_FACE }) && p.r == layer {
        Pos { f: B_FACE as int, r: back, c: N - 1 - p.c }
    } else if p.f == B_FACE && p.r == back {
        Pos { f: if cw { R_FACE as int } else { L_FACE as int }, r: layer, c: N - 1 - p.c }
    } else if p.f == (if cw { R_FACE } else { L_FACE }) && p.r == layer {
        Pos { f: F_FACE as int, r: layer, c: p.c }
    } else if p.f == U_FACE && layer == 0 {
        face_source(cw, p)
    } else if p.f == D_FACE && layer == N - 1 {
        face_source(!cw, p)
    } else {
        p
    }
}

/// The position whose content arrives at `p` when vertical layer `layer` is turned.
///
/// Layer 0 lies on the right face, layer `N - 1` on the left face. Clockwise is seen from the
/// right. The layer is column `N - 1 - layer` of the upper, front and lower faces, and column
/// `layer` of the back face, read from the bottom up.
pub open spec fn r_source(layer: int, cw: bool, p: Pos) -> Pos {
    let front = N - 1 - layer;
    if p.f == U_FACE && p.c == front {
        if cw {
            Pos { f: F_FACE as int, r: p.r, c: front }
        } else {
            Pos { f: B_FACE as int, r: N - 1 - p.r, c: layer }
        }
    } else if p.f == F_FACE && p.c == front {
        Pos { f: if cw { D_FACE as int } else { U_FACE as int }, r: p.r, c: front }
    } else if p.f == D_FACE && p.c == front {
        if cw {
            Pos { f: B_FACE as int, r: N - 1 - p.r, c: layer }
        } else {
            Pos { f: F_FACE as int, r: p.r, c: front }
        }
    } else if p.f == B_FACE && p.c == layer {
        Pos { f: if cw { U_FACE as int } else { D_FACE as int }, r: N - 1 - p.r, c: front }
    } else if p.f == R_FACE && layer == 0 {
        face_source(cw, p)
    } else if p.f == L_FACE && layer == N - 1 {
        face_source(!cw, p)
    } else {
        p
    }
}

/// The position whose content arrives at `p` when depth layer `layer` is turned.
///
/// Layer 0 lies on the front face, layer `N - 1` on the back face. Clockwise is seen from the
/// front. The layer is row `N - 1 - layer` of the upper face, row `layer` of the lower face,
/// column `layer` of the right face and column `N - 1 - layer` of the left face.
pub open spec fn f_source(layer: int, cw: bool, p: Pos) -> Pos {
    let far = N - 1 - layer;
    if p.f == U_FACE && p.r == far {
        if cw {
            Pos { f: L_FACE as int, r: N - 1 - p.c, c: far }
        } else {
            Pos { f: R_FACE as int, r: p.c, c: layer }
        }
    } else if p.f == L_FACE && p.c == far {
        if cw {
            Pos { f: D_FACE as int, r: layer, c: N - 1 - p.r }
        } else {
            Pos { f: U_FACE as int, r: far, c: N - 1 - p.r }
        }
    } else if p.f == D_FACE && p.r == layer {
        if cw {
            Pos { f: R_FACE as int, r: p.c, c: layer }
        } else {
            Pos { f: L_FACE as int, r: p.c, c: far }
        }
    } else if p.f == R_FACE && p.c == layer {
        if cw {
            Pos { f: U_FACE as int, r: far, c: p.r }
        } else {
            Pos { f: D_FACE as int, r: layer, c: N - 1 - p.r }
        }
    } else if p.f == F_FACE && layer == 0 {
        face_source(cw, p)
    } else if p.f == B_FACE && layer == N - 1 {
        face_source(!cw, p)
    } else {
        p
    }
}

/// The position whose content arrives at `p` in a turn of `layer` around `axis`
/// (0: upper/lower, 1: right/left, 2: front/back).
pub open spec fn source(axis: int, layer: int, cw: bool, p: Pos) -> Pos {
    if axis == 0 {
        u_source(layer, cw, p)
    } else if axis == 1 {
        r_source(layer, cw, p)
    } else {
        f_source(layer, cw, p)
    }
}

/// The cells `s` after face `f` alone is rotated by a quarter.
pub open spec fn face_turned(s: Seq<u8>, f: int, cw: bool) -> Seq<u8> {
    Seq::new(
        TOTAL as nat,
        |i: int|
            if place(i).f == f {
                cell(s, face_source(cw, place(i)))
            } else {
                s[i]
            },
    )
}

/// The cells `s` after `layer` is turned around `axis`.
pub open spec fn turned(s: Seq<u8>, axis: int, layer: int, cw: bool) -> Seq<u8> {
    Seq::new(TOTAL as nat, |i: int| cell(s, source(axis, layer, cw, place(i))))
}

/// Every position has its own flat index.
pub proof fn lemma_place_of_flat(p: Pos)
    requires
        p.on_cube(),
    ensures
        0 <= p.flat() < TOTAL,
        place(p.flat()) == p,
{
    let i = p.flat();
    assert(i / 40000 == p.f);
    assert(i % 40000 == p.r * 200 + p.c);
    assert((p.r * 200 + p.c) / 200 == p.r);
    assert(i == 200 * (p.f * 200 + p.r) + p.c);
    assert(i % 200 == p.c);
}

/// Every flat index stands for a position on the cube.
pub proof fn lemma_flat_of_place(i: int)
    requires
        0 <= i < TOTAL,
    ensures
        place(i).on_cube(),
        place(i).flat() == i,
{
    assert(i % 40000 % 200 == i % 200) by (nonlinear_arith);
}

/// The first `FACE_SIZE` indices from the start of a face belong to it.
pub proof fn lemma_face_of_index(f: int, k: int)
    requires
        0 <= k < FACE_SIZE,
    ensures
        place(f * FACE_SIZE + k).f == f,
{
    assert((f * 40000 + k) / 40000 == f);
}

/// Two states that agree at every position are the same sequence.
pub proof fn lemma_same_cells(s: Seq<u8>, t: Seq<u8>)
    requires
        s.len() == TOTAL,
        t.len() == TOTAL,
        forall|p: Pos| p.on_cube() ==> #[trigger] cell(s, p) == cell(t, p),
    ensures
        s == t,
{
    assert forall|i: int| 0 <= i < TOTAL implies s[i] == t[i] by {
        lemma_flat_of_place(i);
        assert(cell(s, place(i)) == cell(t, place(i)));
    }
    assert(s =~= t);
}

/// What a turn leaves at a position.
pub proof fn lemma_turned_cell(s: Seq<u8>, axis: int, layer: int, cw: bool, p: Pos)
    requires
        p.on_cube(),
    ensures
        cell(turned(s, axis, layer, cw), p) == cell(s, source(axis, layer, cw, p)),
{
    lemma_place_of_flat(p);
}

/// What a rotation of one face leaves at a position.
pub proof fn lemma_face_turned_cell(s: Seq<u8>, f: int, cw: bool, p: Pos)
    requires
        p.on_cube(),
    ensures
        cell(face_turned(s, f, cw), p) == (if p.f == f {
            cell(s, face_source(cw, p))
        } else {
            cell(s, p)
        }),
{
    lemma_place_of_flat(p);
}

/// A turn only moves cells about on the cube.
pub proof fn lemma_source_on_cube(axis: int, layer: int, cw: bool, p: Pos)
    requires
        p.on_cube(),
        0 <= layer < N,
    ensures
        source(axis, layer, cw, p).on_cube(),
{
}

} // verus!

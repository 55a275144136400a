//! The state of the cube and the turns of its layers.

use vstd::prelude::*;

use crate::geometry::{B_FACE, D_FACE, FACES, FACE_SIZE, F_FACE, L_FACE, N, R_FACE, TOTAL, U_FACE};
use crate::geometry::{
    cell, face_turned, index, lemma_face_turned_cell, lemma_place_of_flat, lemma_same_cells,
    lemma_turned_cell, turned, Pos,
};
use crate::moves::{all_valid, applied_all, Move};

verus! {

/// The colours of all cells, face after face, row after row.
///
/// A cell holds the number of the face that its colour belongs to.
pub struct CubeState {
    pub data: Box<[u8; TOTAL]>,
}

impl View for CubeState {
    type V = Seq<u8>;

    open spec fn view(&self) -> Seq<u8> {
        self.data@
    }
}

impl Clone for CubeState {
    fn clone(&self) -> (res: Self)
        ensures
            res == *self,
    {
        let data = self.data.clone();
        assert(data@ =~= self.data@);
        assert(*data =~= *self.data);
        CubeState { data }
    }
}

/// One row or one column of a face, read in one of its two directions.
#[derive(Clone, Copy)]
struct Line {
    face: usize,
    /// A row, not a column.
    row: bool,
    /// Which row or column.
    fixed: usize,
    /// Read from the far end.
    flipped: bool,
}

impl Line {
    spec fn wf(self) -> bool {
        self.face < FACES && self.fixed < N
    }

    /// The `k`-th position of the line.
    spec fn at(self, k: int) -> Pos {
        let j = if self.flipped { N - 1 - k } else { k };
        if self.row {
            Pos { f: self.face as int, r: self.fixed as int, c: j }
        } else {
            Pos { f: self.face as int, r: j, c: self.fixed as int }
        }
    }

    /// `p` lies on the line.
    spec fn has(self, p: Pos) -> bool {
        p.f == self.face && (if self.row { p.r } else { p.c }) == self.fixed
    }

    /// How far along the line `p` lies.
    spec fn offset(self, p: Pos) -> int {
        let j = if self.row { p.c } else { p.r };
        if self.flipped { N - 1 - j } else { j }
    }

    fn new(face: usize, row: bool, fixed: usize, flipped: bool) -> (res: Line)
        ensures
            res == (Line { face, row, fixed, flipped }),
    {
        Line { face, row, fixed, flipped }
    }
}

/// The state `t` is `s` with the content of `line` replaced: its `k`-th cell holds `f(k)`.
spec fn line_written(s: Seq<u8>, t: Seq<u8>, line: Line, f: spec_fn(int) -> u8) -> bool {
    forall|p: Pos| p.on_cube() ==> #[trigger] cell(t, p) == (if line.has(p) {
        f(line.offset(p))
    } else {
        cell(s, p)
    })
}

impl CubeState {
    /// A state whose cells are all 0.
    pub fn new_zeroed() -> (res: Self)
        ensures
            res@ == Seq::new(TOTAL as nat, |i: int| 0u8),
    {
        CubeState { data: Box::new([0u8; TOTAL]) }
    }

    /// The state that `bytes` holds.
    pub fn from_bytes(bytes: &[u8]) -> (res: Self)
        requires
            bytes.len() == TOTAL,
        ensures
            res@ == bytes@,
    {
        let mut s = Self::new_zeroed();
        for i in 0..TOTAL
            invariant
                bytes.len() == TOTAL,
                forall|j: int| 0 <= j < i ==> s@[j] == bytes@[j],
        {
            s.data[i] = bytes[i];
        }
        assert(s@ =~= bytes@);
        s
    }

    /// The flat index of row `r`, column `c` of face `f`.
    fn idx(f: usize, r: usize, c: usize) -> (i: usize)
        requires
            index(f as int, r as int, c as int) < TOTAL,
        ensures
            i == index(f as int, r as int, c as int),
    {
        f * FACE_SIZE + r * N + c
    }

    /// The colour at row `r`, column `c` of face `f`.
    pub fn get(&self, f: usize, r: usize, c: usize) -> (v: u8)
        requires
            index(f as int, r as int, c as int) < TOTAL,
        ensures
            v == self@[index(f as int, r as int, c as int)],
    {
        self.data[Self::idx(f, r, c)]
    }

    /// Gives row `r`, column `c` of face `f` the colour `v`.
    pub fn set(&mut self, f: usize, r: usize, c: usize, v: u8)
        requires
            index(f as int, r as int, c as int) < TOTAL,
        ensures
            final(self)@ == old(self)@.update(index(f as int, r as int, c as int), v),
    {
        self.data[Self::idx(f, r, c)] = v;
    }

    /// The colour at the `k`-th cell of `line`.
    fn get_on(&self, line: Line, k: usize) -> (v: u8)
        requires
            line.wf(),
            k < N,
        ensures
            v == cell(self@, line.at(k as int)),
    {
        let j = if line.flipped { N - 1 - k } else { k };
        proof {
            lemma_place_of_flat(line.at(k as int));
        }
        if line.row {
            self.get(line.face, line.fixed, j)
        } else {
            self.get(line.face, j, line.fixed)
        }
    }

    /// Gives the `k`-th cell of `line` the colour `v`.
    fn set_on(&mut self, line: Line, k: usize, v: u8)
        requires
            line.wf(),
            k < N,
        ensures
            forall|p: Pos| p.on_cube() ==> #[trigger] cell(final(self)@, p) == (if p == line.at(
                k as int,
            ) {
                v
            } else {
                cell(old(self)@, p)
            }),
    {
        let j = if line.flipped { N - 1 - k } else { k };
        proof {
            lemma_place_of_flat(line.at(k as int));
        }
        let ghost before = self@;
        if line.row {
            self.set(line.face, line.fixed, j, v);
        } else {
            self.set(line.face, j, line.fixed, v);
        }
        assert forall|p: Pos| p.on_cube() implies #[trigger] cell(self@, p) == (if p == line.at(
            k as int,
        ) {
            v
        } else {
            cell(before, p)
        }) by {
            lemma_place_of_flat(p);
        }
    }

    /// The colours along `line`.
    fn read_line(&self, line: Line) -> (res: [u8; N])
        requires
            line.wf(),
        ensures
            forall|k: int| 0 <= k < N ==> #[trigger] res@[k] == cell(self@, line.at(k)),
    {
        let mut res = [0u8; N];
        for k in 0..N
            invariant
                line.wf(),
                forall|j: int| 0 <= j < k ==> #[trigger] res@[j] == cell(self@, line.at(j)),
        {
            res[k] = self.get_on(line, k);
        }
        res
    }

    /// Gives `line` the colours `colors`.
    fn write_line(&mut self, line: Line, colors: &[u8; N])
        requires
            line.wf(),
        ensures
            line_written(old(self)@, final(self)@, line, |k: int| colors@[k]),
    {
        let ghost before = self@;
        for k in 0..N
            invariant
                line.wf(),
                forall|p: Pos| p.on_cube() ==> #[trigger] cell(self@, p) == (if line.has(p)
                    && line.offset(p) < k {
                    colors@[line.offset(p)]
                } else {
                    cell(before, p)
                }),
        {
            self.set_on(line, k, colors[k]);
        }
    }

    /// Gives `to` the colours along `from`.
    fn copy_line(&mut self, to: Line, from: Line)
        requires
            to.wf(),
            from.wf(),
            to.face != from.face,
        ensures
            line_written(old(self)@, final(self)@, to, |k: int| cell(old(self)@, from.at(k))),
    {
        let colors = self.read_line(from);
        self.write_line(to, &colors);
    }

    /// Swaps two cells of face `f`.
    fn swap_cells(&mut self, f: usize, r1: usize, c1: usize, r2: usize, c2: usize)
        requires
            f < FACES,
            r1 < N,
            c1 < N,
            r2 < N,
            c2 < N,
        ensures
            forall|p: Pos| p.on_cube() ==> #[trigger] cell(final(self)@, p) == (if p.f == f && p.r
                == r1 && p.c == c1 {
                cell(old(self)@, Pos { f: f as int, r: r2 as int, c: c2 as int })
            } else if p.f == f && p.r == r2 && p.c == c2 {
                cell(old(self)@, Pos { f: f as int, r: r1 as int, c: c1 as int })
            } else {
                cell(old(self)@, p)
            }),
    {
        let ghost before = self@;
        proof {
            lemma_place_of_flat(Pos { f: f as int, r: r1 as int, c: c1 as int });
            lemma_place_of_flat(Pos { f: f as int, r: r2 as int, c: c2 as int });
        }
        let v1 = self.get(f, r1, c1);
        let v2 = self.get(f, r2, c2);
        self.set(f, r1, c1, v2);
        self.set(f, r2, c2, v1);
        assert forall|p: Pos| p.on_cube() implies #[trigger] cell(self@, p) == (if p.f == f && p.r
            == r1 && p.c == c1 {
            cell(before, Pos { f: f as int, r: r2 as int, c: c2 as int })
        } else if p.f == f && p.r == r2 && p.c == c2 {
            cell(before, Pos { f: f as int, r: r1 as int, c: c1 as int })
        } else {
            cell(before, p)
        }) by {
            lemma_place_of_flat(p);
        }
    }

    /// Exchanges rows and columns of face `f`.
    fn transpose_face(&mut self, f: usize)
        requires
            f < FACES,
        ensures
            forall|p: Pos| p.on_cube() ==> #[trigger] cell(final(self)@, p) == (if p.f == f {
                cell(old(self)@, Pos { f: p.f, r: p.c, c: p.r })
            } else {
                cell(old(self)@, p)
            }),
    {
        let ghost before = self@;
        for r in 0..N
            invariant
                f < FACES,
                forall|p: Pos| p.on_cube() ==> #[trigger] cell(self@, p) == (if p.f == f && (p.r < r
                    || p.c < r) {
                    cell(before, Pos { f: p.f, r: p.c, c: p.r })
                } else {
                    cell(before, p)
                }),
        {
            for c in (r + 1)..N
                invariant
                    f < FACES,
                    r < N,
                    forall|p: Pos| p.on_cube() ==> #[trigger] cell(self@, p) == (if p.f == f && (p.r
                        < r || p.c < r || (p.r == r && p.c < c) || (p.c == r && p.r < c)) {
                        cell(before, Pos { f: p.f, r: p.c, c: p.r })
                    } else {
                        cell(before, p)
                    }),
            {
                let ghost s = self@;
                self.swap_cells(f, r, c, c, r);
                assert(cell(s, Pos { f: f as int, r: r as int, c: c as int }) == cell(
                    before,
                    Pos { f: f as int, r: r as int, c: c as int },
                ));
                assert(cell(s, Pos { f: f as int, r: c as int, c: r as int }) == cell(
                    before,
                    Pos { f: f as int, r: c as int, c: r as int },
                ));
            }
        }
    }

    /// Reverses every row of face `f`.
    fn reverse_rows(&mut self, f: usize)
        requires
            f < FACES,
        ensures
            forall|p: Pos| p.on_cube() ==> #[trigger] cell(final(self)@, p) == (if p.f == f {
                cell(old(self)@, Pos { f: p.f, r: p.r, c: N - 1 - p.c })
            } else {
                cell(old(self)@, p)
            }),
    {
        let ghost before = self@;
        for r in 0..N
            invariant
                f < FACES,
                forall|p: Pos| p.on_cube() ==> #[trigger] cell(self@, p) == (if p.f == f && p.r < r {
                    cell(before, Pos { f: p.f, r: p.r, c: N - 1 - p.c })
                } else {
                    cell(before, p)
                }),
        {
            for c in 0..N / 2
                invariant
                    f < FACES,
                    r < N,
                    forall|p: Pos| p.on_cube() ==> #[trigger] cell(self@, p) == (if p.f == f && (p.r
                        < r || (p.r == r && (p.c < c || p.c > N - 1 - c))) {
                        cell(before, Pos { f: p.f, r: p.r, c: N - 1 - p.c })
                    } else {
                        cell(before, p)
                    }),
            {
                let ghost s = self@;
                self.swap_cells(f, r, c, r, N - 1 - c);
                assert(cell(s, Pos { f: f as int, r: r as int, c: c as int }) == cell(
                    before,
                    Pos { f: f as int, r: r as int, c: c as int },
                ));
                assert(cell(s, Pos { f: f as int, r: r as int, c: N - 1 - c }) == cell(
                    before,
                    Pos { f: f as int, r: r as int, c: N - 1 - c },
                ));
            }
        }
    }

    /// Rotates the cells of face `f` clockwise: rows become columns, then each row is reversed.
    pub fn rotate_face_cw(&mut self, f: usize)
        requires
            f < FACES,
        ensures
            final(self)@ == face_turned(old(self)@, f as int, true),
    {
        let ghost before = self@;
        self.transpose_face(f);
        let ghost middle = self@;
        self.reverse_rows(f);
        proof {
            let after = face_turned(before, f as int, true);
            assert forall|p: Pos| p.on_cube() implies #[trigger] cell(self@, p) == cell(
                after,
                p,
            ) by {
                lemma_face_turned_cell(before, f as int, true, p);
                if p.f == f {
                    assert(cell(self@, p) == cell(middle, Pos { f: p.f, r: p.r, c: N - 1 - p.c }));
                }
            }
            lemma_same_cells(self@, after);
        }
    }

    /// Rotates the cells of face `f` counter-clockwise: each row is reversed, then rows become
    /// columns.
    pub fn rotate_face_ccw(&mut self, f: usize)
        requires
            f < FACES,
        ensures
            final(self)@ == face_turned(old(self)@, f as int, false),
    {
        let ghost before = self@;
        self.reverse_rows(f);
        let ghost middle = self@;
        self.transpose_face(f);
        proof {
            let after = face_turned(before, f as int, false);
            assert forall|p: Pos| p.on_cube() implies #[trigger] cell(self@, p) == cell(
                after,
                p,
            ) by {
                lemma_face_turned_cell(before, f as int, false, p);
                if p.f == f {
                    assert(cell(self@, p) == cell(middle, Pos { f: p.f, r: p.c, c: p.r }));
                }
            }
            lemma_same_cells(self@, after);
        }
    }

    /// Rotates face `near` with layer 0 and face `far`, seen from the other side, with the last.
    fn rotate_outer(&mut self, layer: usize, cw: bool, near: usize, far: usize)
        requires
            near < FACES,
            far < FACES,
        ensures
            final(self)@ == (if layer == 0 {
                face_turned(old(self)@, near as int, cw)
            } else if layer == N - 1 {
                face_turned(old(self)@, far as int, !cw)
            } else {
                old(self)@
            }),
    {
        if layer == 0 {
            if cw {
                self.rotate_face_cw(near);
            } else {
                self.rotate_face_ccw(near);
            }
        } else if layer == N - 1 {
            if cw {
                self.rotate_face_ccw(far);
            } else {
                self.rotate_face_cw(far);
            }
        }
    }

    /// Turns horizontal layer `layer`, counted from the upper face.
    pub fn move_u_axis(&mut self, layer: usize, cw: bool)
        requires
            layer < N,
        ensures
            final(self)@ == turned(old(self)@, 0, layer as int, cw),
    {
        let ghost s0 = self@;
        let front = Line::new(F_FACE, true, layer, false);
        let back = Line::new(B_FACE, true, N - 1 - layer, true);
        let next = Line::new(if cw { L_FACE } else { R_FACE }, true, layer, false);
        let prev = Line::new(if cw { R_FACE } else { L_FACE }, true, layer, false);

        let tmp = self.read_line(front);
        self.copy_line(front, next);
        self.copy_line(next, back);
        self.copy_line(back, prev);
        self.write_line(prev, &tmp);
        let ghost s4 = self@;
        self.rotate_outer(layer, cw, U_FACE, D_FACE);

        proof {
            let after = turned(s0, 0, layer as int, cw);
            assert forall|p: Pos| p.on_cube() implies #[trigger] cell(self@, p) == cell(
                after,
                p,
            ) by {
                lemma_turned_cell(s0, 0, layer as int, cw, p);
                lemma_face_turned_cell(s4, U_FACE as int, cw, p);
                lemma_face_turned_cell(s4, D_FACE as int, !cw, p);
            }
            lemma_same_cells(self@, after);
        }
    }

    /// Turns vertical layer `layer`, counted from the right face.
    pub fn move_r_axis(&mut self, layer: usize, cw: bool)
        requires
            layer < N,
        ensures
            final(self)@ == turned(old(self)@, 1, layer as int, cw),
    {
        let ghost s0 = self@;
        let upper = Line::new(U_FACE, false, N - 1 - layer, false);
        let front = Line::new(F_FACE, false, N - 1 - layer, false);
        let lower = Line::new(D_FACE, false, N - 1 - layer, false);
        let back = Line::new(B_FACE, false, layer, true);

        let tmp = self.read_line(upper);
        if cw {
            self.copy_line(upper, front);
            self.copy_line(front, lower);
            self.copy_line(lower, back);
            self.write_line(back, &tmp);
        } else {
            self.copy_line(upper, back);
            self.copy_line(back, lower);
            self.copy_line(lower, front);
            self.write_line(front, &tmp);
        }
        let ghost s4 = self@;
        self.rotate_outer(layer, cw, R_FACE, L_FACE);

        proof {
            let after = turned(s0, 1, layer as int, cw);
            assert forall|p: Pos| p.on_cube() implies #[trigger] cell(self@, p) == cell(
                after,
                p,
            ) by {
                lemma_turned_cell(s0, 1, layer as int, cw, p);
                lemma_face_turned_cell(s4, R_FACE as int, cw, p);
                lemma_face_turned_cell(s4, L_FACE as int, !cw, p);
            }
            lemma_same_cells(self@, after);
        }
    }

    /// Turns depth layer `layer`, counted from the front face.
    pub fn move_f_axis(&mut self, layer: usize, cw: bool)
        requires
            layer < N,
        ensures
            final(self)@ == turned(old(self)@, 2, layer as int, cw),
    {
        let ghost s0 = self@;
        let upper = Line::new(U_FACE, true, N - 1 - layer, false);
        let lower = Line::new(D_FACE, true, layer, false);
        let lower_flipped = Line::new(D_FACE, true, layer, true);
        let right = Line::new(R_FACE, false, layer, false);
        let left = Line::new(L_FACE, false, N - 1 - layer, false);
        let left_flipped = Line::new(L_FACE, false, N - 1 - layer, true);

        let tmp = self.read_line(upper);
        if cw {
            self.copy_line(upper, left_flipped);
            self.copy_line(left, lower_flipped);
            self.copy_line(lower, right);
            self.write_line(right, &tmp);
        } else {
            self.copy_line(upper, right);
            self.copy_line(right, lower_flipped);
            self.copy_line(lower, left);
            self.write_line(left_flipped, &tmp);
        }
        let ghost s4 = self@;
        self.rotate_outer(layer, cw, F_FACE, B_FACE);

        proof {
            let after = turned(s0, 2, layer as int, cw);
            assert forall|p: Pos| p.on_cube() implies #[trigger] cell(self@, p) == cell(
                after,
                p,
            ) by {
                lemma_turned_cell(s0, 2, layer as int, cw, p);
                lemma_face_turned_cell(s4, F_FACE as int, cw, p);
                lemma_face_turned_cell(s4, B_FACE as int, !cw, p);
            }
            lemma_same_cells(self@, after);
        }
    }

    /// Makes one move.
    pub fn apply(&mut self, mv: Move)
        requires
            mv.valid(),
        ensures
            final(self)@ == mv.applied(old(self)@),
    {
        match mv.axis {
            0 => self.move_u_axis(mv.layer as usize, mv.cw),
            1 => self.move_r_axis(mv.layer as usize, mv.cw),
            _ => self.move_f_axis(mv.layer as usize, mv.cw),
        }
    }

    /// Makes all of `moves`, in order.
    pub fn apply_seq(&mut self, moves: &[Move])
        requires
            all_valid(moves@),
        ensures
            final(self)@ == applied_all(old(self)@, moves@),
    {
        let ghost before = self@;
        for k in 0..moves.len()
            invariant
                all_valid(moves@),
                self@ == applied_all(before, moves@.take(k as int)),
        {
            proof {
                let upto = moves@.take(k as int + 1);
                assert(upto.drop_last() =~= moves@.take(k as int));
                assert(upto.last() == moves@[k as int]);
            }
            self.apply(moves[k]);
        }
        assert(moves@.take(moves@.len() as int) =~= moves@);
    }
}

} // verus!

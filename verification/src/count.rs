//! How far the cube is solved, counted in cells.

use vstd::prelude::*;

use crate::base64::{base64_encode, encoded};
use crate::cube::CubeState;
use crate::geometry::{
    cell, lemma_face_of_index, lemma_place_of_flat, place, Pos, FACES, FACE_SIZE, N, TOTAL,
};

verus! {

/// The sum of `g` over `lo .. hi`.
pub open spec fn sum(lo: int, hi: int, g: spec_fn(int) -> int) -> int
    decreases hi - lo,
{
    if lo >= hi {
        0
    } else {
        sum(lo, hi - 1, g) + g(hi - 1)
    }
}

/// 1 if the cell at `f`, `r`, `c` has the colour of its face, else 0.
pub open spec fn hit(s: Seq<u8>, f: int, r: int, c: int) -> int {
    if cell(s, Pos { f, r, c }) == f {
        1
    } else {
        0
    }
}

/// 1 if the cell at flat index `i` has the colour of its face, else 0.
pub open spec fn flat_hit(s: Seq<u8>, i: int) -> int {
    if s[i] == place(i).f {
        1
    } else {
        0
    }
}

/// The number of cells that have the colour of their face.
pub open spec fn solved_total(s: Seq<u8>) -> int {
    sum(0, TOTAL as int, |i: int| flat_hit(s, i))
}

/// The number of solved cells in row `r` of face `f`, without the two at its ends.
pub open spec fn inner_of_row(s: Seq<u8>, f: int, r: int) -> int {
    sum(1, N - 1, |c: int| hit(s, f, r, c))
}

/// The number of solved cells of face `f` that are not on its border.
pub open spec fn center_of_face(s: Seq<u8>, f: int) -> int {
    sum(1, N - 1, |r: int| inner_of_row(s, f, r))
}

/// The number of solved cells that are not on the border of their face.
pub open spec fn center_total(s: Seq<u8>) -> int {
    sum(0, FACES as int, |f: int| center_of_face(s, f))
}

/// The number of solved cells in the first and the last row of face `f`, without the corners.
pub open spec fn edge_of_rows(s: Seq<u8>, f: int) -> int {
    sum(1, N - 1, |c: int| hit(s, f, 0, c) + hit(s, f, N - 1, c))
}

/// The number of solved cells in the first and the last column of face `f`, without the corners.
pub open spec fn edge_of_columns(s: Seq<u8>, f: int) -> int {
    sum(1, N - 1, |r: int| hit(s, f, r, 0) + hit(s, f, r, N - 1))
}

/// The number of solved cells on the border of their face, without the corners.
pub open spec fn edge_total(s: Seq<u8>) -> int {
    sum(0, FACES as int, |f: int| edge_of_rows(s, f) + edge_of_columns(s, f))
}

impl CubeState {
    /// 1 if the cell at `f`, `r`, `c` has the colour of its face, else 0.
    fn hit_at(&self, f: usize, r: usize, c: usize) -> (n: u32)
        requires
            f < FACES,
            r < N,
            c < N,
        ensures
            n == hit(self@, f as int, r as int, c as int),
    {
        proof {
            lemma_place_of_flat(Pos { f: f as int, r: r as int, c: c as int });
        }
        if self.get(f, r, c) == f as u8 {
            1
        } else {
            0
        }
    }

    /// The number of cells that have the colour of their face.
    pub fn solved_count(&self) -> (n: u32)
        ensures
            n == solved_total(self@),
            n <= TOTAL,
    {
        let mut n: u32 = 0;
        for f in 0..FACES
            invariant
                n == sum(0, f * FACE_SIZE, |i: int| flat_hit(self@, i)),
                n <= f * FACE_SIZE,
        {
            let e = f as u8;
            let b = f * FACE_SIZE;
            for i in 0..FACE_SIZE
                invariant
                    f < FACES,
                    e == f,
                    b == f * FACE_SIZE,
                    n == sum(0, b + i, |i: int| flat_hit(self@, i)),
                    n <= b + i,
            {
                proof {
                    lemma_face_of_index(f as int, i as int);
                }
                if self.data[b + i] == e {
                    n += 1;
                }
            }
            assert((f + 1) * FACE_SIZE == b + FACE_SIZE) by (nonlinear_arith)
                requires
                    b == f * FACE_SIZE,
            ;
        }
        n
    }

    /// The number of solved cells that are not on the border of their face.
    pub fn center_solved_count(&self) -> (n: u32)
        ensures
            n == center_total(self@),
            n <= TOTAL,
    {
        let mut n: u32 = 0;
        for f in 0..FACES
            invariant
                n == sum(0, f as int, |f: int| center_of_face(self@, f)),
                n <= f * 40000,
        {
            let ghost n0 = n;
            for r in 1..N - 1
                invariant
                    f < FACES,
                    n == n0 + sum(1, r as int, |r: int| inner_of_row(self@, f as int, r)),
                    n0 <= f * 40000,
                    n <= n0 + r * 200,
            {
                let ghost n1 = n;
                for c in 1..N - 1
                    invariant
                        f < FACES,
                        r < N,
                        n == n1 + sum(1, c as int, |c: int| hit(self@, f as int, r as int, c)),
                        n1 <= n0 + r * 200,
                        n0 <= f * 40000,
                        n <= n1 + c,
                {
                    n += self.hit_at(f, r, c);
                }
            }
        }
        n
    }

    /// The number of solved cells on the border of their face, without the corners.
    pub fn edge_solved_count(&self) -> (n: u32)
        ensures
            n == edge_total(self@),
            n <= TOTAL,
    {
        let mut n: u32 = 0;
        for f in 0..FACES
            invariant
                n == sum(0, f as int, |f: int| edge_of_rows(self@, f) + edge_of_columns(self@, f)),
                n <= f * 1000,
        {
            let ghost n0 = n;
            for c in 1..N - 1
                invariant
                    f < FACES,
                    n == n0 + sum(
                        1,
                        c as int,
                        |c: int| hit(self@, f as int, 0, c) + hit(self@, f as int, N - 1, c),
                    ),
                    n0 <= f * 1000,
                    n <= n0 + 2 * c,
            {
                n += self.hit_at(f, 0, c);
                n += self.hit_at(f, N - 1, c);
            }
            let ghost n1 = n;
            for r in 1..N - 1
                invariant
                    f < FACES,
                    n == n1 + sum(
                        1,
                        r as int,
                        |r: int| hit(self@, f as int, r, 0) + hit(self@, f as int, r, N - 1),
                    ),
                    n0 <= f * 1000,
                    n1 <= n0 + 400,
                    n <= n1 + 2 * r,
            {
                n += self.hit_at(f, r, 0);
                n += self.hit_at(f, r, N - 1);
            }
        }
        n
    }

    /// The number of cells that are still to be solved.
    pub fn heuristic_cost(&self) -> (cost: i64)
        ensures
            cost == TOTAL - solved_total(self@),
            0 <= cost <= TOTAL,
    {
        TOTAL as i64 - self.solved_count() as i64
    }

    /// The Base64 text of all cells.
    pub fn to_base64(&self) -> (res: String)
        ensures
            res@ == encoded(self@),
    {
        base64_encode(self.data.as_slice())
    }
}

} // verus!

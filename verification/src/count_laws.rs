//! What the counts say about the cube: when they are full, and how they add up.

use vstd::prelude::*;

use crate::count::{
    center_of_face, center_total, edge_of_columns, edge_of_rows, edge_total, flat_hit, hit,
    inner_of_row, solved_total, sum,
};
use crate::geometry::{
    cell, lemma_flat_of_place, lemma_place_of_flat, place, Pos, FACES, FACE_SIZE, N, TOTAL,
};

verus! {

/// Position `p` is not on the border of its face.
pub open spec fn is_center(p: Pos) -> bool {
    0 < p.r < N - 1 && 0 < p.c < N - 1
}

/// Position `p` is on the border of its face, but in no corner.
pub open spec fn is_edge(p: Pos) -> bool {
    ||| (p.r == 0 || p.r == N - 1) && 0 < p.c < N - 1
    ||| (p.c == 0 || p.c == N - 1) && 0 < p.r < N - 1
}

/// Every cell has the colour of its face.
pub open spec fn all_solved(s: Seq<u8>) -> bool {
    forall|p: Pos| p.on_cube() ==> #[trigger] cell(s, p) == p.f
}

/// Every cell off the border of its face has the colour of its face.
pub open spec fn centers_solved(s: Seq<u8>) -> bool {
    forall|p: Pos| p.on_cube() && is_center(p) ==> #[trigger] cell(s, p) == p.f
}

/// Every cell on the border of its face, but for the corners, has the colour of its face.
pub open spec fn edges_solved(s: Seq<u8>) -> bool {
    forall|p: Pos| p.on_cube() && is_edge(p) ==> #[trigger] cell(s, p) == p.f
}

/// The number of solved corners of face `f`.
pub open spec fn corners_of_face(s: Seq<u8>, f: int) -> int {
    hit(s, f, 0, 0) + hit(s, f, 0, N - 1) + hit(s, f, N - 1, 0) + hit(s, f, N - 1, N - 1)
}

/// The number of solved cells in a corner of their face.
pub open spec fn corner_total(s: Seq<u8>) -> int {
    sum(0, FACES as int, |f: int| corners_of_face(s, f))
}

/// A sum of numbers from 0 to `m` is full exactly if each of them is `m`.
pub proof fn lemma_sum_full(lo: int, hi: int, g: spec_fn(int) -> int, m: int)
    requires
        lo <= hi,
        0 <= m,
        forall|i: int| lo <= i < hi ==> 0 <= #[trigger] g(i) <= m,
    ensures
        0 <= sum(lo, hi, g) <= m * (hi - lo),
        sum(lo, hi, g) == m * (hi - lo) <==> (forall|i: int| lo <= i < hi ==> #[trigger] g(i) == m),
    decreases hi - lo,
{
    if lo < hi {
        lemma_sum_full(lo, hi - 1, g, m);
        assert(m * (hi - lo) == m * (hi - 1 - lo) + m) by (nonlinear_arith);
        assert(0 <= g(hi - 1) <= m);
        if sum(lo, hi, g) == m * (hi - lo) {
            assert forall|i: int| lo <= i < hi implies #[trigger] g(i) == m by {
                if i < hi - 1 {
                    assert(sum(lo, hi - 1, g) == m * (hi - 1 - lo));
                }
            }
        }
    } else {
        assert(m * (hi - lo) == 0) by (nonlinear_arith)
            requires
                hi == lo,
        ;
    }
}

/// The number of solved cells is full exactly if the cube is solved.
pub proof fn law_solved_total_full(s: Seq<u8>)
    ensures
        0 <= solved_total(s) <= TOTAL,
        solved_total(s) == TOTAL <==> all_solved(s),
{
    let g = |i: int| flat_hit(s, i);
    lemma_sum_full(0, TOTAL as int, g, 1);
    if all_solved(s) {
        assert forall|i: int| 0 <= i < TOTAL implies #[trigger] g(i) == 1 by {
            lemma_flat_of_place(i);
            assert(cell(s, place(i)) == place(i).f);
        }
    }
    if solved_total(s) == TOTAL {
        assert forall|p: Pos| p.on_cube() implies #[trigger] cell(s, p) == p.f by {
            lemma_place_of_flat(p);
            assert(g(p.flat()) == 1);
        }
    }
}

/// The number of solved centre cells is full exactly if all of them are solved.
pub proof fn law_center_total_full(s: Seq<u8>)
    ensures
        0 <= center_total(s) <= FACES * (N - 2) * (N - 2),
        center_total(s) == FACES * (N - 2) * (N - 2) <==> centers_solved(s),
{
    let faces = |f: int| center_of_face(s, f);
    assert forall|f: int| #![trigger center_of_face(s, f)] 0 <= center_of_face(s, f) <= 39204 && (
    center_of_face(s, f) == 39204 <==> (forall|r: int, c: int|
        0 < r < N - 1 && 0 < c < N - 1 ==> #[trigger] hit(s, f, r, c) == 1)) by {
        let rows = |r: int| inner_of_row(s, f, r);
        assert forall|r: int| #![trigger inner_of_row(s, f, r)] 0 <= inner_of_row(s, f, r) <= 198
            && (inner_of_row(s, f, r) == 198 <==> (forall|c: int|
            0 < c < N - 1 ==> #[trigger] hit(s, f, r, c) == 1)) by {
            let cells = |c: int| hit(s, f, r, c);
            lemma_sum_full(1, N - 1, cells, 1);
            assert forall|c: int| hit(s, f, r, c) == #[trigger] cells(c) by {}
            if inner_of_row(s, f, r) == 198 {
                assert forall|c: int| 0 < c < N - 1 implies #[trigger] hit(s, f, r, c) == 1 by {
                    assert(cells(c) == 1);
                }
            }
        }
        assert forall|r: int| 0 <= #[trigger] rows(r) <= 198 by {}
        lemma_sum_full(1, N - 1, rows, 198);
        if center_of_face(s, f) == 39204 {
            assert forall|r: int, c: int| 0 < r < N - 1 && 0 < c < N - 1 implies #[trigger] hit(
                s,
                f,
                r,
                c,
            ) == 1 by {
                assert(rows(r) == 198);
                assert(inner_of_row(s, f, r) == 198);
            }
        }
        if forall|r: int, c: int| 0 < r < N - 1 && 0 < c < N - 1 ==> #[trigger] hit(s, f, r, c)
            == 1 {
            assert forall|r: int| 1 <= r < N - 1 implies #[trigger] rows(r) == 198 by {
                assert(inner_of_row(s, f, r) == 198);
            }
        }
    }
    assert forall|f: int| 0 <= #[trigger] faces(f) <= 39204 by {
        assert(0 <= center_of_face(s, f) <= 39204);
    }
    lemma_sum_full(0, FACES as int, faces, 39204);
    if centers_solved(s) {
        assert forall|f: int| 0 <= f < FACES implies #[trigger] faces(f) == 39204 by {
            assert forall|r: int, c: int| 0 < r < N - 1 && 0 < c < N - 1 implies #[trigger] hit(
                s,
                f,
                r,
                c,
            ) == 1 by {
                assert(cell(s, Pos { f, r, c }) == f);
            }
            assert(center_of_face(s, f) == 39204);
        }
    }
    if center_total(s) == FACES * (N - 2) * (N - 2) {
        assert forall|p: Pos| p.on_cube() && is_center(p) implies #[trigger] cell(s, p) == p.f by {
            assert(faces(p.f) == 39204);
            assert(center_of_face(s, p.f) == 39204);
            assert(hit(s, p.f, p.r, p.c) == 1);
            assert(p == (Pos { f: p.f, r: p.r, c: p.c }));
        }
    }
}

/// The number of solved edge cells is full exactly if all of them are solved.
pub proof fn law_edge_total_full(s: Seq<u8>)
    ensures
        0 <= edge_total(s) <= FACES * 4 * (N - 2),
        edge_total(s) == FACES * 4 * (N - 2) <==> edges_solved(s),
{
    let faces = |f: int| edge_of_rows(s, f) + edge_of_columns(s, f);
    assert forall|f: int| #![trigger edge_of_rows(s, f)] 0 <= edge_of_rows(s, f) <= 396 && (
    edge_of_rows(s, f) == 396 <==> (forall|c: int|
        0 < c < N - 1 ==> #[trigger] hit(s, f, 0, c) == 1 && hit(s, f, N - 1, c) == 1)) by {
        let g = |c: int| hit(s, f, 0, c) + hit(s, f, N - 1, c);
        assert forall|c: int| #[trigger] g(c) == hit(s, f, 0, c) + hit(s, f, N - 1, c) by {}
        lemma_sum_full(1, N - 1, g, 2);
        if edge_of_rows(s, f) == 396 {
            assert forall|c: int| 0 < c < N - 1 implies #[trigger] hit(s, f, 0, c) == 1 && hit(
                s,
                f,
                N - 1,
                c,
            ) == 1 by {
                assert(g(c) == 2);
            }
        }
        if forall|c: int| 0 < c < N - 1 ==> #[trigger] hit(s, f, 0, c) == 1 && hit(s, f, N - 1, c) == 1 {
            assert forall|c: int| 1 <= c < N - 1 implies #[trigger] g(c) == 2 by {
                assert(hit(s, f, 0, c) == 1);
            }
        }
    }
    assert forall|f: int| #![trigger edge_of_columns(s, f)] 0 <= edge_of_columns(s, f) <= 396 && (
    edge_of_columns(s, f) == 396 <==> (forall|r: int|
        0 < r < N - 1 ==> #[trigger] hit(s, f, r, 0) == 1 && hit(s, f, r, N - 1) == 1)) by {
        let g = |r: int| hit(s, f, r, 0) + hit(s, f, r, N - 1);
        assert forall|r: int| #[trigger] g(r) == hit(s, f, r, 0) + hit(s, f, r, N - 1) by {}
        lemma_sum_full(1, N - 1, g, 2);
        if edge_of_columns(s, f) == 396 {
            assert forall|r: int| 0 < r < N - 1 implies #[trigger] hit(s, f, r, 0) == 1 && hit(
                s,
                f,
                r,
                N - 1,
            ) == 1 by {
                assert(g(r) == 2);
            }
        }
        if forall|r: int| 0 < r < N - 1 ==> #[trigger] hit(s, f, r, 0) == 1 && hit(s, f, r, N - 1) == 1 {
            assert forall|r: int| 1 <= r < N - 1 implies #[trigger] g(r) == 2 by {
                assert(hit(s, f, r, 0) == 1);
            }
        }
    }
    assert forall|f: int| 0 <= #[trigger] faces(f) <= 792 by {
        assert(edge_of_rows(s, f) <= 396);
        assert(edge_of_columns(s, f) <= 396);
    }
    lemma_sum_full(0, FACES as int, faces, 792);
    if edges_solved(s) {
        assert forall|f: int| 0 <= f < FACES implies #[trigger] faces(f) == 792 by {
            assert forall|c: int| 0 < c < N - 1 implies #[trigger] hit(s, f, 0, c) == 1 && hit(
                s,
                f,
                N - 1,
                c,
            ) == 1 by {
                assert(cell(s, Pos { f, r: 0, c }) == f);
                assert(cell(s, Pos { f, r: N - 1, c }) == f);
            }
            assert forall|r: int| 0 < r < N - 1 implies #[trigger] hit(s, f, r, 0) == 1 && hit(
                s,
                f,
                r,
                N - 1,
            ) == 1 by {
                assert(cell(s, Pos { f, r, c: 0 }) == f);
                assert(cell(s, Pos { f, r, c: N - 1 }) == f);
            }
            assert(edge_of_rows(s, f) == 396);
            assert(edge_of_columns(s, f) == 396);
        }
    }
    if edge_total(s) == FACES * 4 * (N - 2) {
        assert forall|p: Pos| p.on_cube() && is_edge(p) implies #[trigger] cell(s, p) == p.f by {
            assert(faces(p.f) == 792);
            assert(edge_of_rows(s, p.f) <= 396);
            assert(edge_of_columns(s, p.f) <= 396);
            assert(edge_of_rows(s, p.f) == 396);
            assert(edge_of_columns(s, p.f) == 396);
            if 0 < p.c < N - 1 {
                assert(hit(s, p.f, 0, p.c) == 1);
            } else {
                assert(hit(s, p.f, p.r, 0) == 1);
            }
            assert(p == (Pos { f: p.f, r: p.r, c: p.c }));
        }
    }
}

/// A sum of sums is the sum of the parts.
proof fn lemma_sum_of_three(
    lo: int,
    hi: int,
    g: spec_fn(int) -> int,
    a: spec_fn(int) -> int,
    b: spec_fn(int) -> int,
    c: spec_fn(int) -> int,
)
    requires
        forall|i: int| lo <= i < hi ==> #[trigger] g(i) == a(i) + b(i) + c(i),
    ensures
        sum(lo, hi, g) == sum(lo, hi, a) + sum(lo, hi, b) + sum(lo, hi, c),
    decreases hi - lo,
{
    if lo < hi {
        lemma_sum_of_three(lo, hi - 1, g, a, b, c);
    }
}

/// A sum can be split at its first term.
proof fn lemma_sum_first(lo: int, hi: int, g: spec_fn(int) -> int)
    requires
        lo < hi,
    ensures
        sum(lo, hi, g) == g(lo) + sum(lo + 1, hi, g),
    decreases hi - lo,
{
    if lo + 1 < hi {
        lemma_sum_first(lo, hi - 1, g);
    } else {
        assert(sum(lo, lo, g) == 0);
    }
}

/// The number of solved cells among the first `k` of row `r` of face `f`.
spec fn row_part(s: Seq<u8>, f: int, r: int, k: int) -> int {
    sum(0, k, |c: int| hit(s, f, r, c))
}

/// The number of solved cells in the first `k` rows of face `f`.
spec fn face_part(s: Seq<u8>, f: int, k: int) -> int {
    sum(0, k, |r: int| row_part(s, f, r, N as int))
}

/// The number of solved cells up to a place within a row.
proof fn lemma_flat_row(s: Seq<u8>, f: int, r: int, k: int)
    requires
        0 <= f < FACES,
        0 <= r < N,
        0 <= k <= N,
    ensures
        ({
            let g = |i: int| flat_hit(s, i);
            let start = f * FACE_SIZE + r * N;
            sum(0, start + k, g) == sum(0, start, g) + row_part(s, f, r, k)
        }),
    decreases k,
{
    if k > 0 {
        lemma_flat_row(s, f, r, k - 1);
        lemma_place_of_flat(Pos { f, r, c: k - 1 });
    }
}

/// The number of solved cells up to the start of a row.
proof fn lemma_flat_face(s: Seq<u8>, f: int, k: int)
    requires
        0 <= f < FACES,
        0 <= k <= N,
    ensures
        ({
            let g = |i: int| flat_hit(s, i);
            let start = f * FACE_SIZE;
            sum(0, start + k * N, g) == sum(0, start, g) + face_part(s, f, k)
        }),
    decreases k,
{
    if k > 0 {
        lemma_flat_face(s, f, k - 1);
        lemma_flat_row(s, f, k - 1, N as int);
        assert(f * FACE_SIZE + (k - 1) * N + N == f * FACE_SIZE + k * N);
    }
}

/// The number of solved cells up to the start of a face.
proof fn lemma_flat_faces(s: Seq<u8>, k: int)
    requires
        0 <= k <= FACES,
    ensures
        sum(0, k * FACE_SIZE, |i: int| flat_hit(s, i)) == sum(
            0,
            k,
            |f: int| face_part(s, f, N as int),
        ),
    decreases k,
{
    if k > 0 {
        lemma_flat_faces(s, k - 1);
        lemma_flat_face(s, k - 1, N as int);
        assert((k - 1) * FACE_SIZE + N * N == k * FACE_SIZE);
    }
}

/// The solved cells of a face are its centre cells, its edge cells and its corners.
proof fn lemma_face_parts(s: Seq<u8>, f: int)
    ensures
        face_part(s, f, N as int) == center_of_face(s, f) + (edge_of_rows(s, f) + edge_of_columns(
            s,
            f,
        )) + corners_of_face(s, f),
{
    let row = |r: int| row_part(s, f, r, N as int);
    let ends = |r: int| hit(s, f, r, 0) + hit(s, f, r, N - 1);
    let inner = |r: int| inner_of_row(s, f, r);
    let none = |r: int| 0int;
    assert forall|r: int| #[trigger] row(r) == inner(r) + ends(r) + none(r) by {
        let cells = |c: int| hit(s, f, r, c);
        lemma_sum_first(0, N - 1, cells);
        assert(cells(0) == hit(s, f, r, 0));
        assert(sum(0, N as int, cells) == sum(0, N - 1, cells) + cells(N - 1));
    }
    lemma_sum_first(0, N - 1, row);
    lemma_sum_of_three(1, N - 1, row, inner, ends, none);
    lemma_sum_zero(1, N - 1);
    let top = |c: int| hit(s, f, 0, c);
    let bottom = |c: int| hit(s, f, N - 1, c);
    let both = |c: int| hit(s, f, 0, c) + hit(s, f, N - 1, c);
    lemma_sum_of_three(1, N - 1, both, top, bottom, none);
    assert(row(0) == inner_of_row(s, f, 0) + ends(0));
    assert(row(N - 1) == inner_of_row(s, f, N - 1) + ends(N - 1));
}

/// A sum of zeros is zero.
proof fn lemma_sum_zero(lo: int, hi: int)
    ensures
        sum(lo, hi, |i: int| 0int) == 0,
    decreases hi - lo,
{
    if lo < hi {
        lemma_sum_zero(lo, hi - 1);
    }
}

/// Every solved cell is counted once: in a centre, on an edge or in a corner.
pub proof fn law_counts_add_up(s: Seq<u8>)
    ensures
        solved_total(s) == center_total(s) + edge_total(s) + corner_total(s),
{
    let faces = |f: int| face_part(s, f, N as int);
    let a = |f: int| center_of_face(s, f);
    let b = |f: int| edge_of_rows(s, f) + edge_of_columns(s, f);
    let c = |f: int| corners_of_face(s, f);
    lemma_flat_faces(s, FACES as int);
    assert forall|f: int| 0 <= f < FACES implies #[trigger] faces(f) == a(f) + b(f) + c(f) by {
        lemma_face_parts(s, f);
    }
    lemma_sum_of_three(0, FACES as int, faces, a, b, c);
}

/// Functions that agree on a range have the same sum over it.
proof fn lemma_sum_same(lo: int, hi: int, g: spec_fn(int) -> int, h: spec_fn(int) -> int)
    requires
        forall|i: int| lo <= i < hi ==> #[trigger] g(i) == h(i),
    ensures
        sum(lo, hi, g) == sum(lo, hi, h),
    decreases hi - lo,
{
    if lo < hi {
        lemma_sum_same(lo, hi - 1, g, h);
        assert(g(hi - 1) == h(hi - 1));
    }
}

/// 1 for what holds, 0 for what does not.
spec fn one_if(b: bool) -> int {
    if b {
        1
    } else {
        0
    }
}

/// Adding up a 1 for each number below `n` that has a property counts these numbers.
proof fn lemma_sum_counts(n: int, has: spec_fn(int) -> bool)
    requires
        0 <= n,
    ensures
        Set::new(|i: int| 0 <= i < n && has(i)).finite(),
        sum(0, n, |i: int| one_if(has(i))) == Set::new(|i: int| 0 <= i < n && has(i)).len(),
    decreases n,
{
    let all = Set::new(|i: int| 0 <= i < n && has(i));
    if n == 0 {
        assert(all =~= Set::<int>::empty());
    } else {
        let m = n - 1;
        let most = Set::new(|i: int| 0 <= i < m && has(i));
        lemma_sum_counts(m, has);
        if has(m) {
            assert(all =~= most.insert(m));
        } else {
            assert(all =~= most);
        }
    }
}

/// The sum of `h` over the first `k` cells of row `r` of face `f`.
spec fn row_sum(h: spec_fn(Pos) -> int, f: int, r: int, k: int) -> int {
    sum(0, k, |c: int| h(Pos { f, r, c }))
}

/// The sum of `h` over the first `k` rows of face `f`.
spec fn face_sum(h: spec_fn(Pos) -> int, f: int, k: int) -> int {
    sum(0, k, |r: int| row_sum(h, f, r, N as int))
}

proof fn lemma_flat_row_sum(h: spec_fn(Pos) -> int, f: int, r: int, k: int)
    requires
        0 <= f < FACES,
        0 <= r < N,
        0 <= k <= N,
    ensures
        ({
            let g = |i: int| h(place(i));
            let start = f * FACE_SIZE + r * N;
            sum(0, start + k, g) == sum(0, start, g) + row_sum(h, f, r, k)
        }),
    decreases k,
{
    if k > 0 {
        lemma_flat_row_sum(h, f, r, k - 1);
        lemma_place_of_flat(Pos { f, r, c: k - 1 });
    }
}

proof fn lemma_flat_face_sum(h: spec_fn(Pos) -> int, f: int, k: int)
    requires
        0 <= f < FACES,
        0 <= k <= N,
    ensures
        ({
            let g = |i: int| h(place(i));
            let start = f * FACE_SIZE;
            sum(0, start + k * N, g) == sum(0, start, g) + face_sum(h, f, k)
        }),
    decreases k,
{
    if k > 0 {
        lemma_flat_face_sum(h, f, k - 1);
        lemma_flat_row_sum(h, f, k - 1, N as int);
        assert(f * FACE_SIZE + (k - 1) * N + N == f * FACE_SIZE + k * N);
    }
}

/// Adding up over all numbers is adding up over faces, rows and columns.
proof fn lemma_flat_sum(h: spec_fn(Pos) -> int, k: int)
    requires
        0 <= k <= FACES,
    ensures
        sum(0, k * FACE_SIZE, |i: int| h(place(i))) == sum(0, k, |f: int| face_sum(h, f, N as int)),
    decreases k,
{
    if k > 0 {
        lemma_flat_sum(h, k - 1);
        lemma_flat_face_sum(h, k - 1, N as int);
        assert((k - 1) * FACE_SIZE + N * N == k * FACE_SIZE);
    }
}

/// The sum over a row is its two ends and what lies between.
proof fn lemma_row_ends(h: spec_fn(Pos) -> int, f: int, r: int)
    ensures
        row_sum(h, f, r, N as int) == h(Pos { f, r, c: 0 }) + sum(
            1,
            N - 1,
            |c: int| h(Pos { f, r, c }),
        ) + h(Pos { f, r, c: N - 1 }),
{
    let g = |c: int| h(Pos { f, r, c });
    lemma_sum_first(0, N - 1, g);
}

/// The sum over a face is its first row, its last and what lies between.
proof fn lemma_face_ends(h: spec_fn(Pos) -> int, f: int)
    ensures
        face_sum(h, f, N as int) == row_sum(h, f, 0, N as int) + sum(
            1,
            N - 1,
            |r: int| row_sum(h, f, r, N as int),
        ) + row_sum(h, f, N - 1, N as int),
{
    let g = |r: int| row_sum(h, f, r, N as int);
    lemma_sum_first(0, N - 1, g);
}

proof fn lemma_sum_of_zeros(lo: int, hi: int, g: spec_fn(int) -> int)
    requires
        forall|i: int| lo <= i < hi ==> #[trigger] g(i) == 0,
    ensures
        sum(lo, hi, g) == 0,
{
    lemma_sum_same(lo, hi, g, |i: int| 0int);
    lemma_sum_zero(lo, hi);
}

/// The number of solved cells is the number of cells whose colour is that of the face that they
/// are numbered in.
pub proof fn law_solved_cells_are_counted(s: Seq<u8>)
    ensures
        solved_total(s) == Set::new(|i: int| 0 <= i < 240000 && s[i] == i / 40000).len(),
{
    let has = |i: int| s[i] == i / 40000;
    lemma_sum_counts(240000, has);
    lemma_sum_same(0, 240000, |i: int| flat_hit(s, i), |i: int| one_if(has(i)));
    assert(Set::new(|i: int| 0 <= i < 240000 && s[i] == i / 40000) =~= Set::new(
        |i: int| 0 <= i < 240000 && has(i),
    ));
}

/// The number of solved centre cells is the number of solved cells in neither the first nor the
/// last row or column of their face.
pub proof fn law_center_cells_are_counted(s: Seq<u8>)
    ensures
        center_total(s) == Set::new(
            |i: int|
                0 <= i < 240000 && s[i] == i / 40000 && 0 < i % 40000 / 200 < 199 && 0 < i % 200
                    < 199,
        ).len(),
{
    let has = |i: int|
        s[i] == i / 40000 && 0 < i % 40000 / 200 < 199 && 0 < i % 200 < 199;
    let h = |p: Pos| one_if(cell(s, p) == p.f && is_center(p));
    lemma_sum_counts(240000, has);
    assert forall|i: int| 0 <= i < 240000 implies #[trigger] one_if(has(i)) == h(place(i)) by {
        lemma_flat_of_place(i);
    }
    lemma_sum_same(0, 240000, |i: int| one_if(has(i)), |i: int| h(place(i)));
    lemma_flat_sum(h, 6);
    assert forall|f: int| 0 <= f < 6 implies face_sum(h, f, N as int) == #[trigger] center_of_face(
        s,
        f,
    ) by {
        lemma_face_ends(h, f);
        assert forall|r: int| 0 <= r < N implies #[trigger] row_sum(h, f, r, N as int) == (if 0 < r
            < N - 1 {
            inner_of_row(s, f, r)
        } else {
            0
        }) by {
            lemma_row_ends(h, f, r);
            let g = |c: int| h(Pos { f, r, c });
            if 0 < r < N - 1 {
                lemma_sum_same(1, N - 1, g, |c: int| hit(s, f, r, c));
            } else {
                lemma_sum_of_zeros(1, N - 1, g);
            }
        }
        lemma_sum_same(
            1,
            N - 1,
            |r: int| row_sum(h, f, r, N as int),
            |r: int| inner_of_row(s, f, r),
        );
    }
    lemma_sum_same(0, 6, |f: int| face_sum(h, f, N as int), |f: int| center_of_face(s, f));
    assert(Set::new(
        |i: int|
            0 <= i < 240000 && s[i] == i / 40000 && 0 < i % 40000 / 200 < 199 && 0 < i % 200 < 199,
    ) =~= Set::new(|i: int| 0 <= i < 240000 && has(i)));
}

/// The number of solved edge cells is the number of solved cells in the first or last row or the
/// first or last column of their face, but not in both.
pub proof fn law_edge_cells_are_counted(s: Seq<u8>)
    ensures
        edge_total(s) == Set::new(
            |i: int|
                0 <= i < 240000 && s[i] == i / 40000 && (0 < i % 40000 / 200 < 199) != (0 < i % 200
                    < 199),
        ).len(),
{
    let has = |i: int|
        s[i] == i / 40000 && (0 < i % 40000 / 200 < 199) != (0 < i % 200 < 199);
    let h = |p: Pos| one_if(cell(s, p) == p.f && is_edge(p));
    lemma_sum_counts(240000, has);
    assert forall|i: int| 0 <= i < 240000 implies #[trigger] one_if(has(i)) == h(place(i)) by {
        lemma_flat_of_place(i);
    }
    lemma_sum_same(0, 240000, |i: int| one_if(has(i)), |i: int| h(place(i)));
    lemma_flat_sum(h, 6);
    let none = |i: int| 0int;
    assert forall|f: int| 0 <= f < 6 implies face_sum(h, f, N as int) == #[trigger] edge_of_rows(
        s,
        f,
    ) + edge_of_columns(s, f) by {
        lemma_face_ends(h, f);
        let top = |c: int| hit(s, f, 0, c);
        let bottom = |c: int| hit(s, f, N - 1, c);
        let ends = |r: int| hit(s, f, r, 0) + hit(s, f, r, N - 1);
        lemma_row_ends(h, f, 0);
        lemma_sum_same(1, N - 1, |c: int| h(Pos { f, r: 0, c }), top);
        lemma_row_ends(h, f, N - 1);
        lemma_sum_same(1, N - 1, |c: int| h(Pos { f, r: N - 1, c }), bottom);
        lemma_sum_of_three(
            1,
            N - 1,
            |c: int| hit(s, f, 0, c) + hit(s, f, N - 1, c),
            top,
            bottom,
            none,
        );
        lemma_sum_zero(1, N - 1);
        assert forall|r: int| 1 <= r < N - 1 implies #[trigger] row_sum(h, f, r, N as int) == ends(
            r,
        ) by {
            lemma_row_ends(h, f, r);
            lemma_sum_of_zeros(1, N - 1, |c: int| h(Pos { f, r, c }));
        }
        lemma_sum_same(1, N - 1, |r: int| row_sum(h, f, r, N as int), ends);
    }
    lemma_sum_same(
        0,
        6,
        |f: int| face_sum(h, f, N as int),
        |f: int| edge_of_rows(s, f) + edge_of_columns(s, f),
    );
    assert(Set::new(
        |i: int|
            0 <= i < 240000 && s[i] == i / 40000 && (0 < i % 40000 / 200 < 199) != (0 < i % 200
                < 199),
    ) =~= Set::new(|i: int| 0 <= i < 240000 && has(i)));
}

} // verus!

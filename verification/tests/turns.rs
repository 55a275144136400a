use cube200::cube::CubeState;
use cube200::geometry::{FACES, FACE_SIZE, N, TOTAL};
use cube200::moves::Move;
use cube200::scramble::{is_inverse, is_triple, Cube};

const U: usize = 0;
const R: usize = 1;
const F: usize = 2;
const D: usize = 3;
const L: usize = 4;
const B: usize = 5;

/// Cells that differ enough for every mix-up to show.
fn patterned() -> CubeState {
    let bytes: Vec<u8> = (0..TOTAL).map(|i| ((i * 31 + i / 200 * 17 + i / 40000 * 101) % 251) as u8).collect();
    CubeState::from_bytes(&bytes)
}

fn solved() -> CubeState {
    Cube::new_solved().state
}

fn mv(axis: u8, layer: u16, cw: bool) -> Move {
    Move { axis, layer, cw }
}

/// A plain grid with the strips of each axis written out.
#[derive(Clone)]
struct Grid {
    cells: Vec<u8>,
}

impl Grid {
    fn of(s: &CubeState) -> Grid {
        Grid { cells: s.data.to_vec() }
    }

    fn at(&self, f: usize, r: usize, c: usize) -> u8 {
        self.cells[f * FACE_SIZE + r * N + c]
    }

    fn put(&mut self, f: usize, r: usize, c: usize, v: u8) {
        self.cells[f * FACE_SIZE + r * N + c] = v;
    }

    fn face(&mut self, f: usize, cw: bool) {
        let old = self.clone();
        for r in 0..N {
            for c in 0..N {
                let v = if cw { old.at(f, N - 1 - c, r) } else { old.at(f, c, N - 1 - r) };
                self.put(f, r, c, v);
            }
        }
    }

    fn outer(&mut self, layer: usize, cw: bool, near: usize, far: usize) {
        if layer == 0 {
            self.face(near, cw);
        } else if layer == N - 1 {
            self.face(far, !cw);
        }
    }

    fn turn(&mut self, axis: u8, layer: usize, cw: bool) {
        let old = self.clone();
        let far = N - 1 - layer;
        for k in 0..N {
            let m = N - 1 - k;
            match (axis, cw) {
                (0, true) => {
                    self.put(F, layer, k, old.at(L, layer, k));
                    self.put(L, layer, k, old.at(B, far, m));
                    self.put(B, far, k, old.at(R, layer, m));
                    self.put(R, layer, k, old.at(F, layer, k));
                }
                (0, false) => {
                    self.put(F, layer, k, old.at(R, layer, k));
                    self.put(R, layer, k, old.at(B, far, m));
                    self.put(B, far, k, old.at(L, layer, m));
                    self.put(L, layer, k, old.at(F, layer, k));
                }
                (1, true) => {
                    self.put(U, k, far, old.at(F, k, far));
                    self.put(F, k, far, old.at(D, k, far));
                    self.put(D, k, far, old.at(B, m, layer));
                    self.put(B, m, layer, old.at(U, k, far));
                }
                (1, false) => {
                    self.put(U, k, far, old.at(B, m, layer));
                    self.put(B, k, layer, old.at(D, m, far));
                    self.put(D, k, far, old.at(F, k, far));
                    self.put(F, k, far, old.at(U, k, far));
                }
                (_, true) => {
                    self.put(U, far, k, old.at(L, m, far));
                    self.put(L, k, far, old.at(D, layer, m));
                    self.put(D, layer, k, old.at(R, k, layer));
                    self.put(R, k, layer, old.at(U, far, k));
                }
                (_, false) => {
                    self.put(U, far, k, old.at(R, k, layer));
                    self.put(R, k, layer, old.at(D, layer, m));
                    self.put(D, layer, k, old.at(L, k, far));
                    self.put(L, k, far, old.at(U, far, m));
                }
            }
        }
        match axis {
            0 => self.outer(layer, cw, U, D),
            1 => self.outer(layer, cw, R, L),
            _ => self.outer(layer, cw, F, B),
        }
    }
}

#[test]
fn every_axis_turns_its_strips() {
    for axis in 0..3u8 {
        for layer in [0usize, 1, 77, 100, 198, 199] {
            for cw in [true, false] {
                let mut s = patterned();
                let mut g = Grid::of(&s);
                s.apply(mv(axis, layer as u16, cw));
                g.turn(axis, layer, cw);
                assert!(g.cells == s.data.to_vec(), "axis {} layer {} cw {}", axis, layer, cw);
            }
        }
    }
}

#[test]
fn scrambling_cube_turns_like_the_state() {
    for axis in 0..3u8 {
        for layer in [0usize, 5, 199] {
            let mut s = patterned();
            let mut c = Cube { state: patterned() };
            s.apply(mv(axis, layer as u16, false));
            c.do_move(axis, layer, false);
            assert!(c.state.data == s.data);
        }
    }
}

#[test]
fn faces_rotate() {
    let mut s = patterned();
    let mut g = Grid::of(&s);
    s.rotate_face_cw(3);
    g.face(3, true);
    assert!(g.cells == s.data.to_vec());
    s.rotate_face_ccw(5);
    g.face(5, false);
    assert!(g.cells == s.data.to_vec());

    let mut c = Cube { state: patterned() };
    let before = patterned();
    c.rotate_face_cw(1);
    assert_eq!(c.cell(1, 0, 0), before.get(1, 199, 0));
    assert_eq!(c.cell(1, 0, 199), before.get(1, 0, 0));
    c.rotate_face_ccw(1);
    assert!(c.state.data == before.data);
}

#[test]
fn cells_are_read_and_written() {
    let mut s = CubeState::new_zeroed();
    assert!(s.data.iter().all(|&v| v == 0));
    s.set(5, 199, 199, 9);
    assert_eq!(s.get(5, 199, 199), 9);
    assert_eq!(s.data[TOTAL - 1], 9);
    s.set(1, 2, 3, 7);
    assert_eq!(s.data[40000 + 403], 7);

    // Only the flat index has to be on the cube.
    s.set(0, 0, 250, 4);
    assert_eq!(s.get(0, 1, 50), 4);

    let mut c = Cube::new_solved();
    *c.cell_mut(2, 10, 20) = 5;
    assert_eq!(c.cell(2, 10, 20), 5);
    assert_eq!(c.cell(2, 10, 21), 2);
    assert_eq!(c.state.data[2 * FACE_SIZE + 10 * N + 20], 5);
}

#[test]
fn solved_cube_has_face_colors() {
    let c = Cube::new_solved();
    for f in 0..FACES {
        assert!(c.state.data[f * FACE_SIZE..(f + 1) * FACE_SIZE].iter().all(|&v| v as usize == f));
    }
}

#[test]
fn inverse_changes_the_direction() {
    assert_eq!(mv(1, 42, true).inverse(), mv(1, 42, false));
    assert_eq!(mv(2, 0, false).inverse(), mv(2, 0, true));
}

#[test]
fn reverse_undoes_around_two_axes() {
    for axis in 0..2u8 {
        for layer in [0u16, 3, 150, 199] {
            for cw in [true, false] {
                let m = mv(axis, layer, cw);
                let mut s = patterned();
                s.apply(m);
                assert!(s.data != patterned().data);
                s.apply(m.inverse());
                assert!(s.data == patterned().data);
            }
        }
    }
}

#[test]
fn reverse_around_the_depth_axis_mirrors_two_strips() {
    // On the solved cube every strip reads the same from both ends.
    let mut s = solved();
    s.apply(mv(2, 7, true));
    s.apply(mv(2, 7, false));
    assert!(s.data == solved().data);

    // One marked cell on the right face comes back at the other end of its strip.
    let mut s = solved();
    s.set(R, 10, 7, 9);
    s.apply(mv(2, 7, true));
    s.apply(mv(2, 7, false));
    assert_eq!(s.get(R, 10, 7), R as u8);
    assert_eq!(s.get(R, 189, 7), 9);

    // In the other order the left face has that strip.
    let mut s = solved();
    s.set(L, 10, 192, 9);
    s.apply(mv(2, 7, false));
    s.apply(mv(2, 7, true));
    assert_eq!(s.get(L, 189, 192), 9);
}

#[test]
fn four_turns_restore() {
    for axis in 0..3u8 {
        for cw in [true, false] {
            for layer in [0u16, 60, 199] {
                let mut s = patterned();
                let m = mv(axis, layer, cw);
                s.apply_seq(&[m, m, m]);
                assert!(s.data != patterned().data);
                s.apply(m);
                assert!(s.data == patterned().data);
            }
        }
    }
}

#[test]
fn three_turns_are_the_reverse_around_two_axes() {
    for axis in 0..2u8 {
        for cw in [true, false] {
            let m = mv(axis, 0, cw);
            let mut s = patterned();
            s.apply_seq(&[m, m, m]);
            let mut t = patterned();
            t.apply(m.inverse());
            assert!(s.data == t.data);
        }
    }
    let m = mv(2, 0, true);
    let mut s = patterned();
    s.apply_seq(&[m, m, m]);
    let mut t = patterned();
    t.apply(m.inverse());
    assert!(s.data != t.data);
}

#[test]
fn inner_layers_leave_the_faces_alone() {
    let mut s = patterned();
    s.apply(mv(0, 100, true));
    let p = patterned();
    assert!(s.data[..FACE_SIZE] == p.data[..FACE_SIZE]);
    assert!(s.data[D * FACE_SIZE..(D + 1) * FACE_SIZE] == p.data[D * FACE_SIZE..(D + 1) * FACE_SIZE]);
    assert_eq!(s.get(F, 99, 0), p.get(F, 99, 0));
    assert_eq!(s.get(F, 100, 0), p.get(L, 100, 0));
}

#[test]
fn moves_keep_the_colors() {
    let mut s = solved();
    s.apply_seq(&[mv(0, 0, true), mv(1, 30, false), mv(2, 199, true), mv(0, 55, false), mv(2, 0, false)]);
    for v in 0..6u8 {
        assert_eq!(s.data.iter().filter(|&&x| x == v).count(), FACE_SIZE);
    }
}

#[test]
fn sequences_concatenate() {
    let (a, b) = ([mv(0, 1, true), mv(1, 2, true)], [mv(2, 3, false), mv(0, 4, false)]);
    let mut s = patterned();
    s.apply_seq(&a);
    s.apply_seq(&b);
    let mut t = patterned();
    t.apply_seq(&[a[0], a[1], b[0], b[1]]);
    assert!(s.data == t.data);
    let mut u = patterned();
    u.apply_seq(&[]);
    assert!(u.data == patterned().data);
}

#[test]
fn clone_copies_the_cells() {
    let s = patterned();
    let t = s.clone();
    assert!(s.data == t.data);
}

#[test]
fn opposite_and_triple_moves_are_seen() {
    assert!(is_inverse(mv(0, 5, true), mv(0, 5, false)));
    assert!(!is_inverse(mv(0, 5, true), mv(0, 5, true)));
    assert!(!is_inverse(mv(0, 5, true), mv(1, 5, false)));
    assert!(!is_inverse(mv(0, 5, true), mv(0, 6, false)));

    let m = mv(2, 9, true);
    assert!(is_triple(Some(m), Some(m), m));
    assert!(is_triple(Some(m), Some(m.inverse()), m));
    assert!(!is_triple(None, Some(m), m));
    assert!(!is_triple(Some(m), None, m));
    assert!(!is_triple(Some(mv(2, 8, true)), Some(m), m));
    assert!(!is_triple(Some(m), Some(mv(1, 9, true)), m));
}

#[test]
fn turns_are_permutations() {
    // Two marked cells never meet.
    for axis in 0..3u8 {
        for cw in [true, false] {
            let mut s = solved();
            s.set(F, 0, 0, 9);
            s.set(B, 199, 199, 9);
            s.set(L, 0, 199, 9);
            s.apply(mv(axis, 0, cw));
            assert_eq!(s.data.iter().filter(|&&v| v == 9).count(), 3);
        }
    }
}

#[test]
fn layers_of_an_axis_commute() {
    for axis in 0..3u8 {
        for (m, n) in [(0, 199), (3, 0), (120, 7)] {
            for (cw_m, cw_n) in [(true, true), (true, false), (false, false)] {
                let mut s = patterned();
                let mut t = patterned();
                s.apply_seq(&[mv(axis, m, cw_m), mv(axis, n, cw_n)]);
                t.apply_seq(&[mv(axis, n, cw_n), mv(axis, m, cw_m)]);
                assert!(s.data == t.data);
            }
        }
    }
    // Layers of different axes do not.
    let mut s = patterned();
    let mut t = patterned();
    s.apply_seq(&[mv(0, 5, true), mv(1, 5, true)]);
    t.apply_seq(&[mv(1, 5, true), mv(0, 5, true)]);
    assert!(s.data != t.data);
}

#[test]
fn face_rotations_undo_each_other() {
    for f in 0..FACES {
        let mut s = patterned();
        s.rotate_face_cw(f);
        assert!(s.data != patterned().data);
        s.rotate_face_ccw(f);
        assert!(s.data == patterned().data);
        s.rotate_face_ccw(f);
        s.rotate_face_cw(f);
        assert!(s.data == patterned().data);
    }
}

/// How often each colour is on centre, edge and corner cells.
fn zones(s: &CubeState) -> Vec<[usize; 3]> {
    let mut counts = vec![[0; 3]; 256];
    for f in 0..FACES {
        for r in 0..N {
            for c in 0..N {
                let border = [r, c].iter().filter(|&&x| x == 0 || x == N - 1).count();
                counts[s.get(f, r, c) as usize][border] += 1;
            }
        }
    }
    counts
}

#[test]
fn colors_stay_in_their_zones() {
    let before = zones(&patterned());
    let mut s = patterned();
    for layer in [0, 1, 100, 198, 199] {
        for axis in 0..3u8 {
            s.apply_seq(&[mv(axis, layer, true), mv(axis, layer, true), mv((axis + 1) % 3, layer, false)]);
            assert!(zones(&s) == before);
        }
    }
}

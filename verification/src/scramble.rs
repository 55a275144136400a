//! Scrambling a solved cube with random moves, none of which turns a layer straight back.

use vstd::prelude::*;
use vstd::set_lib::{lemma_int_range, set_int_range};

use crate::cube::CubeState;
use crate::geometry::{
    face_turned, index, lemma_face_of_index, place, turned, FACES, FACE_SIZE, N, TOTAL,
};
use crate::moves::{all_valid, applied_all, Move};
use crate::rng::{
    draw, law_every_number_can_be_drawn, law_every_triple_can_be_drawn, law_low_bit_changes,
    law_orbit_counts_three_draws, lemma_orbit_next, lemma_orbit_of_step, lemma_step_nonzero, orbit,
    step, stride, unstep, Xorshift64, ZERO_SEED_STATE,
};
use crate::turn_laws::{color_cells, color_count, law_moves_keep_colors};

verus! {

/// The number of moves that a scramble is measured by.
pub const BASE_MOVES: u64 = 240_000;

/// Progress is reported once in this many moves.
pub const PRINT_INTERVAL: u64 = 1000;

/// The solved cube: every cell has the colour of its face.
pub open spec fn solved_cells() -> Seq<u8> {
    Seq::new(TOTAL as nat, |i: int| place(i).f as u8)
}

/// A cube to scramble.
pub struct Cube {
    pub state: CubeState,
}

impl View for Cube {
    type V = Seq<u8>;

    open spec fn view(&self) -> Seq<u8> {
        self.state@
    }
}

impl Cube {
    /// The solved cube.
    pub fn new_solved() -> (res: Self)
        ensures
            res@ == solved_cells(),
    {
        let mut state = CubeState::new_zeroed();
        for face in 0..FACES
            invariant
                forall|i: int| 0 <= i < face * FACE_SIZE ==> #[trigger] state@[i] == place(i).f,
        {
            let color = face as u8;
            let start = face * FACE_SIZE;
            for k in 0..FACE_SIZE
                invariant
                    face < FACES,
                    color == face,
                    start == face * FACE_SIZE,
                    forall|i: int| 0 <= i < start + k ==> #[trigger] state@[i] == place(i).f,
            {
                proof {
                    lemma_face_of_index(face as int, k as int);
                }
                let ghost before = state@;
                state.data[start + k] = color;
                assert(state@ =~= before.update(start + k, color));
            }
            assert((face + 1) * FACE_SIZE == start + FACE_SIZE) by (nonlinear_arith)
                requires
                    start == face * FACE_SIZE,
            ;
        }
        assert(state@ =~= solved_cells());
        Cube { state }
    }

    /// The cell at row `r`, column `c` of face `f`, for writing.
    pub fn cell_mut(&mut self, f: usize, r: usize, c: usize) -> (res: &mut u8)
        requires
            index(f as int, r as int, c as int) < TOTAL,
        ensures
            *res == old(self)@[index(f as int, r as int, c as int)],
            final(self)@ == old(self)@.update(index(f as int, r as int, c as int), *final(res)),
    {
        &mut self.state.data[f * FACE_SIZE + r * N + c]
    }

    /// The colour at row `r`, column `c` of face `f`.
    pub fn cell(&self, f: usize, r: usize, c: usize) -> (v: u8)
        requires
            index(f as int, r as int, c as int) < TOTAL,
        ensures
            v == self@[index(f as int, r as int, c as int)],
    {
        self.state.get(f, r, c)
    }

    /// Rotates the cells of face `f` clockwise.
    pub fn rotate_face_cw(&mut self, f: usize)
        requires
            f < FACES,
        ensures
            final(self)@ == face_turned(old(self)@, f as int, true),
    {
        self.state.rotate_face_cw(f);
    }

    /// Rotates the cells of face `f` counter-clockwise.
    pub fn rotate_face_ccw(&mut self, f: usize)
        requires
            f < FACES,
        ensures
            final(self)@ == face_turned(old(self)@, f as int, false),
    {
        self.state.rotate_face_ccw(f);
    }

    /// Turns `layer` around `axis` (0: upper/lower, 1: right/left, 2: front/back).
    pub fn do_move(&mut self, axis: u8, layer: usize, clockwise: bool)
        requires
            axis < 3,
            layer < N,
        ensures
            final(self)@ == turned(old(self)@, axis as int, layer as int, clockwise),
    {
        match axis {
            0 => self.move_u_axis(layer, clockwise),
            1 => self.move_r_axis(layer, clockwise),
            _ => self.move_f_axis(layer, clockwise),
        }
    }

    /// Turns horizontal layer `layer`, counted from the upper face.
    pub fn move_u_axis(&mut self, layer: usize, clockwise: bool)
        requires
            layer < N,
        ensures
            final(self)@ == turned(old(self)@, 0, layer as int, clockwise),
    {
        self.state.move_u_axis(layer, clockwise);
    }

    /// Turns vertical layer `layer`, counted from the right face.
    pub fn move_r_axis(&mut self, layer: usize, clockwise: bool)
        requires
            layer < N,
        ensures
            final(self)@ == turned(old(self)@, 1, layer as int, clockwise),
    {
        self.state.move_r_axis(layer, clockwise);
    }

    /// Turns depth layer `layer`, counted from the front face.
    pub fn move_f_axis(&mut self, layer: usize, clockwise: bool)
        requires
            layer < N,
        ensures
            final(self)@ == turned(old(self)@, 2, layer as int, clockwise),
    {
        self.state.move_f_axis(layer, clockwise);
    }
}

/// `a` and `b` turn the same layer.
pub open spec fn same_layer(a: Move, b: Move) -> bool {
    a.axis == b.axis && a.layer == b.layer
}

/// `a` and `b` turn the same layer in opposite directions.
pub open spec fn opposite(a: Move, b: Move) -> bool {
    same_layer(a, b) && a.cw != b.cw
}

/// `mv` may follow `prev1`, which followed `prev2`: it does not turn the layer of `prev1` back,
/// nor turn for the third time in a row the layer of both.
pub open spec fn allowed(prev2: Option<Move>, prev1: Option<Move>, mv: Move) -> bool {
    &&& !(prev1 is Some && opposite(prev1->0, mv))
    &&& !(prev2 is Some && prev1 is Some && same_layer(prev2->0, mv) && same_layer(prev1->0, mv))
}

/// Whether `a` and `b` turn the same layer in opposite directions.
pub fn is_inverse(a: Move, b: Move) -> (res: bool)
    ensures
        res == opposite(a, b),
{
    a.axis == b.axis && a.layer == b.layer && a.cw != b.cw
}

/// Whether `prev2`, `prev1` and `candidate` turn the same layer three times in a row.
pub fn is_triple(prev2: Option<Move>, prev1: Option<Move>, candidate: Move) -> (res: bool)
    ensures
        res == (prev2 is Some && prev1 is Some && same_layer(prev2->0, candidate) && same_layer(
            prev1->0,
            candidate,
        )),
{
    if let (Some(p2), Some(p1)) = (prev2, prev1) {
        p2.axis == candidate.axis && p2.layer == candidate.layer && p1.axis == candidate.axis
            && p1.layer == candidate.layer
    } else {
        false
    }
}

/// The move that three draws from state `x` name: its axis, its layer and its direction.
pub open spec fn candidate(x: u64) -> Move {
    Move {
        axis: (step(x) % 3) as u8,
        layer: (step(step(x)) % N as u64) as u16,
        cw: stride(x) % 2 == 0,
    }
}

/// `mv` is the first allowed candidate from generator state `x`: the `k` candidates before it are
/// not allowed, and the generator stands behind it in state `after`.
pub open spec fn drawn_after(
    x: u64,
    prev2: Option<Move>,
    prev1: Option<Move>,
    k: u64,
    mv: Move,
    after: u64,
) -> bool {
    &&& forall|j: u64| j < k ==> !allowed(prev2, prev1, candidate(#[trigger] orbit(x, j)))
    &&& mv == candidate(orbit(x, k))
    &&& allowed(prev2, prev1, mv)
    &&& after == stride(orbit(x, k))
}

/// A candidate that is not allowed turns the layer of the move before it.
proof fn lemma_low_bit_of_layer(x: u64, prev2: Option<Move>, prev1: Option<Move>)
    requires
        !allowed(prev2, prev1, candidate(x)),
    ensures
        prev1 is Some,
        (step(step(x)) & 1 == 1) == (prev1->0.layer % 2 == 1),
{
    let y = step(step(x));
    assert((y & 1 == 1) == ((y % 200) % 2 == 1)) by (bit_vector);
}

/// Draws candidates until one is allowed. There are never more than sixty-five of them.
pub fn next_move(rng: &mut Xorshift64, prev2: Option<Move>, prev1: Option<Move>) -> (mv: Move)
    requires
        old(rng).wf(),
    ensures
        exists|k: u64|
            k <= 64 && #[trigger] drawn_after(
                old(rng).state,
                prev2,
                prev1,
                k,
                mv,
                final(rng).state,
            ),
        mv.valid(),
        final(rng).wf(),
{
    let ghost x = rng.state;
    let ghost k: u64 = 0;
    loop
        invariant
            x == old(rng).state,
            x != 0,
            rng.wf(),
            k <= 64,
            rng.state == orbit(x, k),
            forall|j: u64| j < k ==> !allowed(prev2, prev1, candidate(#[trigger] orbit(x, j))),
        decreases 64 - k,
    {
        let axis = rng.next_bounded(3) as u8;
        let layer = rng.next_bounded(N as u64) as u16;
        let cw = rng.next_bounded(2) == 0;
        let mv = Move { axis, layer, cw };
        assert(mv == candidate(orbit(x, k)));
        let turned_back = match prev1 {
            Some(p1) => is_inverse(p1, mv),
            None => false,
        };
        if !turned_back && !is_triple(prev2, prev1, mv) {
            assert(drawn_after(x, prev2, prev1, k, mv, rng.state));
            return mv;
        }
        proof {
            lemma_orbit_next(x, k);
            assert(!allowed(prev2, prev1, candidate(orbit(x, k))));
            if k == 64 {
                let y = step(step(x));
                let odd = prev1->0.layer % 2 == 1;
                lemma_low_bit_of_layer(orbit(x, k), prev2, prev1);
                lemma_step_nonzero(x);
                lemma_step_nonzero(step(x));
                law_low_bit_changes(y, odd);
                let j = choose|j: u64| j <= 64 && (#[trigger] orbit(y, j) & 1 == 1) != odd;
                lemma_orbit_of_step(x, j);
                lemma_orbit_of_step(step(x), j);
                lemma_low_bit_of_layer(orbit(x, j), prev2, prev1);
                assert(false);
            }
            k = (k + 1) as u64;
        }
    }
}

/// The length of a scramble drawn from generator state `x`: 105 to 125 percent of the base.
pub open spec fn length_from(x: u64) -> int {
    BASE_MOVES * (105 + step(x) % 21) / 100
}

/// Draws the length of a scramble.
pub fn scramble_length(rng: &mut Xorshift64) -> (total: u64)
    ensures
        total == length_from(old(rng).state),
        252_000 <= total <= 300_000,
        final(rng).state == step(old(rng).state),
        old(rng).wf() ==> final(rng).wf(),
{
    let factor = 105 + rng.next_bounded(21);
    BASE_MOVES * factor / 100
}

/// Progress is reported before move number `step`.
pub open spec fn reports_at(step: int) -> bool {
    step % PRINT_INTERVAL as int == 0
}

/// Whether progress is reported before move number `step`.
pub fn progress_due(step: u64) -> (due: bool)
    ensures
        due == (step % 1000 == 0),
        due == reports_at(step as int),
{
    step % PRINT_INTERVAL == 0
}

/// The move `back` places from the end of `history`.
pub open spec fn recent(history: Seq<Move>, back: int) -> Option<Move> {
    if back <= history.len() {
        Some(history[history.len() - back])
    } else {
        None
    }
}

/// Each move was allowed after the two before it.
pub open spec fn all_allowed(history: Seq<Move>) -> bool {
    forall|n: int|
        0 <= n < history.len() ==> allowed(
            recent(history.take(n), 2),
            recent(history.take(n), 1),
            #[trigger] history[n],
        )
}

/// A scramble in progress.
pub struct Scrambler {
    pub rng: Xorshift64,
    pub cube: Cube,
    /// The last move, if any.
    pub prev1: Option<Move>,
    /// The move before the last, if any.
    pub prev2: Option<Move>,
    /// How many moves the scramble takes.
    pub total_moves: u64,
    /// How many moves are made so far.
    pub made: u64,
    /// The moves made so far.
    pub history: Ghost<Seq<Move>>,
}

impl Scrambler {
    /// The cube is the solved cube after the moves made so far, each of which was allowed. They
    /// are counted and no more than the scramble takes, and the last two of them are at hand.
    pub open spec fn wf(self) -> bool {
        &&& self.rng.wf()
        &&& self.cube@ == applied_all(solved_cells(), self.history@)
        &&& all_valid(self.history@)
        &&& all_allowed(self.history@)
        &&& self.prev1 == recent(self.history@, 1)
        &&& self.prev2 == recent(self.history@, 2)
        &&& 252_000 <= self.total_moves <= 300_000
        &&& self.made == self.history@.len()
        &&& self.made <= self.total_moves
    }

    /// Starts a scramble of a solved cube; the length and all moves follow from `seed`.
    pub fn new(seed: u64) -> (res: Self)
        ensures
            res.wf(),
            res.history@ == Seq::<Move>::empty(),
            ({
                let x = if seed == 0 {
                    ZERO_SEED_STATE
                } else {
                    seed
                };
                res.total_moves == length_from(x) && res.rng.state == step(x)
            }),
    {
        let mut rng = Xorshift64::new(seed);
        let total_moves = scramble_length(&mut rng);
        let cube = Cube::new_solved();
        Scrambler {
            rng,
            cube,
            prev1: None,
            prev2: None,
            total_moves,
            made: 0,
            history: Ghost(Seq::empty()),
        }
    }

    /// Draws the next allowed move and makes it.
    pub fn step(&mut self) -> (mv: Move)
        requires
            old(self).wf(),
            old(self).history@.len() < old(self).total_moves,
        ensures
            final(self).wf(),
            exists|k: u64|
                k <= 64 && #[trigger] drawn_after(
                    old(self).rng.state,
                    old(self).prev2,
                    old(self).prev1,
                    k,
                    mv,
                    final(self).rng.state,
                ),
            final(self).history@ == old(self).history@.push(mv),
            final(self).total_moves == old(self).total_moves,
    {
        let mv = next_move(&mut self.rng, self.prev2, self.prev1);
        let ghost k = choose|k: u64|
            k <= 64 && #[trigger] drawn_after(
                old(self).rng.state,
                old(self).prev2,
                old(self).prev1,
                k,
                mv,
                self.rng.state,
            );
        self.cube.do_move(mv.axis, mv.layer as usize, mv.cw);
        self.prev2 = self.prev1;
        self.prev1 = Some(mv);
        self.made += 1;
        let ghost before = self.history@;
        proof {
            self.history@ = before.push(mv);
            let after = self.history@;
            assert(after.drop_last() =~= before);
            assert(applied_all(solved_cells(), after) == mv.applied(
                applied_all(solved_cells(), before),
            ));
            assert forall|n: int| 0 <= n < after.len() implies allowed(
                recent(after.take(n), 2),
                recent(after.take(n), 1),
                #[trigger] after[n],
            ) by {
                assert(after.take(n) =~= before.take(n));
                if n == before.len() {
                    assert(before.take(n) =~= before);
                } else {
                    assert(after[n] == before[n]);
                }
            }
            assert(drawn_after(
                old(self).rng.state,
                old(self).prev2,
                old(self).prev1,
                k,
                mv,
                self.rng.state,
            ));
        }
        mv
    }

    /// Draws the next allowed move and makes it, unless the scramble has all its moves.
    pub fn advance(&mut self) -> (res: Option<Move>)
        requires
            old(self).wf(),
        ensures
            final(self).wf(),
            res is None <==> old(self).history@.len() == old(self).total_moves,
            res is None ==> *final(self) == *old(self),
            res matches Some(mv) ==> {
                &&& exists|k: u64|
                    k <= 64 && #[trigger] drawn_after(
                        old(self).rng.state,
                        old(self).prev2,
                        old(self).prev1,
                        k,
                        mv,
                        final(self).rng.state,
                    )
                &&& final(self).history@ == old(self).history@.push(mv)
                &&& final(self).total_moves == old(self).total_moves
            },
    {
        if self.made == self.total_moves {
            None
        } else {
            Some(self.step())
        }
    }

    /// Whether progress is reported before the next move; after the last move there is no more.
    pub fn report_due(&self) -> (due: bool)
        requires
            self.wf(),
        ensures
            due == (self.history@.len() < self.total_moves && self.history@.len() % 1000 == 0),
            due == (self.history@.len() < self.total_moves && reports_at(
                self.history@.len() as int,
            )),
    {
        self.made < self.total_moves && progress_due(self.made)
    }
}

/// The draw of a move has one outcome: the move, the number of candidates before it and the state
/// of the generator behind it follow from the state before it and the last two moves.
pub proof fn law_draw_has_one_outcome(
    x: u64,
    prev2: Option<Move>,
    prev1: Option<Move>,
    k: u64,
    mv: Move,
    after: u64,
    other_k: u64,
    other_mv: Move,
    other_after: u64,
)
    requires
        drawn_after(x, prev2, prev1, k, mv, after),
        drawn_after(x, prev2, prev1, other_k, other_mv, other_after),
    ensures
        k == other_k,
        mv == other_mv,
        after == other_after,
{
    assert(allowed(prev2, prev1, candidate(orbit(x, k))));
    assert(allowed(prev2, prev1, candidate(orbit(x, other_k))));
}

/// No move of a scramble turns the layer of the move before it in the other direction.
pub proof fn law_neighbours_are_not_opposite(s: Scrambler, n: int)
    requires
        s.wf(),
        0 < n < s.history@.len(),
    ensures
        !opposite(s.history@[n - 1], s.history@[n]),
{
    assert(allowed(
        recent(s.history@.take(n), 2),
        recent(s.history@.take(n), 1),
        s.history@[n],
    ));
}

/// No layer is turned three times in a row in a scramble.
pub proof fn law_no_layer_three_times(s: Scrambler, n: int)
    requires
        s.wf(),
        1 < n < s.history@.len(),
    ensures
        !(same_layer(s.history@[n - 2], s.history@[n]) && same_layer(
            s.history@[n - 1],
            s.history@[n],
        )),
{
    assert(allowed(
        recent(s.history@.take(n), 2),
        recent(s.history@.take(n), 1),
        s.history@[n],
    ));
}

/// At every moment of a scramble each of the six colours is on as many cells as a face has.
pub proof fn law_scramble_keeps_colors(s: Scrambler, v: u8)
    requires
        s.wf(),
        v < FACES,
    ensures
        color_count(s.cube@, v) == FACE_SIZE,
{
    law_moves_keep_colors(solved_cells(), s.history@, v);
    let (lo, hi) = (v * FACE_SIZE, (v + 1) * FACE_SIZE);
    lemma_int_range(lo, hi);
    assert(color_cells(solved_cells(), v) =~= set_int_range(lo, hi));
}

/// Three successive draws name a move: the first its axis by the remainder by three, the second
/// its layer by the remainder by two hundred, and the third its direction, which is clockwise if
/// the number is even.
pub proof fn law_three_draws_name_a_move(x: u64)
    ensures
        candidate(x).axis == draw(x, 1) % 3,
        candidate(x).layer == draw(x, 2) % 200,
        candidate(x).cw == (draw(x, 3) % 2 == 0),
{
    assert(draw(x, 0) == x);
    assert(draw(x, 1) == step(draw(x, 0)));
    assert(draw(x, 2) == step(draw(x, 1)));
    assert(draw(x, 3) == step(draw(x, 2)));
}

/// A drawn move is named by three successive draws, behind which the generator then stands. It does
/// not turn the layer of the last move in the other direction, nor the layer of the last two moves
/// a third time.
pub proof fn law_drawn_move_follows_the_rules(
    x: u64,
    prev2: Option<Move>,
    prev1: Option<Move>,
    k: u64,
    mv: Move,
    after: u64,
)
    requires
        drawn_after(x, prev2, prev1, k, mv, after),
    ensures
        mv.axis == draw(x, (3 * k + 1) as nat) % 3,
        mv.layer == draw(x, (3 * k + 2) as nat) % 200,
        mv.cw == (draw(x, (3 * k + 3) as nat) % 2 == 0),
        after == draw(x, (3 * k + 3) as nat),
        prev1 is Some ==> !(prev1->0.axis == mv.axis && prev1->0.layer == mv.layer && prev1->0.cw
            != mv.cw),
        prev1 is Some && prev2 is Some ==> !(prev1->0.axis == mv.axis && prev1->0.layer == mv.layer
            && prev2->0.axis == mv.axis && prev2->0.layer == mv.layer),
{
    lemma_candidate_of_draws(x, k);
}

/// A candidate is skipped for a reason: it turns the layer of the last move, either in the other
/// direction or after the move before that turned it too.
pub proof fn law_skipped_candidates_break_a_rule(
    x: u64,
    prev2: Option<Move>,
    prev1: Option<Move>,
    k: u64,
    mv: Move,
    after: u64,
    j: u64,
)
    requires
        drawn_after(x, prev2, prev1, k, mv, after),
        j < k,
    ensures
        prev1 is Some,
        prev1->0.axis == draw(x, (3 * j + 1) as nat) % 3,
        prev1->0.layer == draw(x, (3 * j + 2) as nat) % 200,
        prev1->0.cw == (draw(x, (3 * j + 3) as nat) % 2 == 0) ==> prev2 is Some && prev2->0.axis
            == prev1->0.axis && prev2->0.layer == prev1->0.layer,
{
    lemma_candidate_of_draws(x, j);
    assert(!allowed(prev2, prev1, candidate(orbit(x, j))));
}

proof fn lemma_candidate_of_draws(x: u64, k: u64)
    ensures
        candidate(orbit(x, k)).axis == draw(x, (3 * k + 1) as nat) % 3,
        candidate(orbit(x, k)).layer == draw(x, (3 * k + 2) as nat) % 200,
        candidate(orbit(x, k)).cw == (draw(x, (3 * k + 3) as nat) % 2 == 0),
        stride(orbit(x, k)) == draw(x, (3 * k + 3) as nat),
{
    law_orbit_counts_three_draws(x, k);
    let n = (3 * k) as nat;
    assert(draw(x, n + 1) == step(draw(x, n)));
    assert(draw(x, n + 2) == step(draw(x, n + 1)));
    assert(draw(x, n + 3) == step(draw(x, n + 2)));
}

/// Every turn of every layer can be drawn at once, whatever the last two moves were, unless these
/// rule it out: no axis, no layer and no direction is left out.
pub proof fn law_every_move_can_be_drawn(
    prev2: Option<Move>,
    prev1: Option<Move>,
    mv: Move,
) -> (x: u64)
    requires
        mv.axis < 3,
        mv.layer < 200,
        prev1 is Some ==> !(prev1->0.axis == mv.axis && prev1->0.layer == mv.layer && prev1->0.cw
            != mv.cw),
        prev1 is Some && prev2 is Some ==> !(prev1->0.axis == mv.axis && prev1->0.layer == mv.layer
            && prev2->0.axis == mv.axis && prev2->0.layer == mv.layer),
    ensures
        x != 0,
        drawn_after(x, prev2, prev1, 0, mv, draw(x, 3)),
{
    let x = law_every_triple_can_be_drawn(mv.axis as u64, mv.layer as u64, mv.cw);
    law_three_draws_name_a_move(x);
    law_orbit_counts_three_draws(x, 0);
    assert(orbit(x, 0) == x);
    assert(candidate(x) == mv);
    x
}

/// The length of a scramble is 252000 and 2400 for each unit of the first draw's remainder by 21;
/// each of these 21 lengths can be drawn.
pub proof fn law_lengths_follow_the_first_draw(x: u64, n: u64)
    requires
        n < 21,
    ensures
        length_from(x) == 252000 + 2400 * (draw(x, 1) % 21),
        exists|y: u64| y != 0 && #[trigger] length_from(y) == 252000 + 2400 * n,
{
    assert(draw(x, 0) == x);
    assert(draw(x, 1) == step(draw(x, 0)));
    let d = (n + 21) as u64;
    let y = unstep(d);
    law_every_number_can_be_drawn(d);
    assert(length_from(y) == 252000 + 2400 * n);
}

/// Two moves are opposite if they turn the same layer around the same axis in different
/// directions, and turn the same layer if they do in any direction.
pub proof fn law_layers_are_told_apart(a: Move, b: Move)
    ensures
        same_layer(a, b) <==> (a.axis == b.axis && a.layer == b.layer),
        opposite(a, b) <==> a == b.reversed(),
        opposite(a, b) <==> opposite(b, a),
{
}

/// A scramble starts from the solved cube: every cell has the colour of its face.
pub proof fn law_scramble_starts_solved(i: int)
    requires
        0 <= i < 240000,
    ensures
        solved_cells().len() == 240000,
        solved_cells()[i] == i / 40000,
{
}

/// At every moment of a scramble the cube is what the moves made so far have made of the solved
/// one, their number is at hand and within the length of the scramble, and so are the last two of
/// them, as far as there are any.
pub proof fn law_scramble_keeps_its_books(s: Scrambler)
    requires
        s.wf(),
    ensures
        s.cube.state@ == applied_all(solved_cells(), s.history@),
        s.made == s.history@.len(),
        s.made <= s.total_moves,
        s.rng.state != 0,
        s.prev1 is Some <==> s.history@.len() >= 1,
        s.prev2 is Some <==> s.history@.len() >= 2,
        s.prev1 is Some ==> s.prev1->0 == s.history@.last(),
        s.prev2 is Some ==> s.prev2->0 == s.history@.drop_last().last(),
{
}

/// Progress is reported once in a thousand moves: before every move whose number is a multiple of a
/// thousand, and before none between them.
pub proof fn law_progress_is_reported_once_in_a_thousand(thousands: int, more: int)
    requires
        0 <= thousands,
        0 < more < 1000,
    ensures
        reports_at(1000 * thousands),
        !reports_at(1000 * thousands + more),
{
}

} // verus!

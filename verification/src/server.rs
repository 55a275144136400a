//! The state that the threads of the solver share, and how it changes.

use vstd::prelude::*;

use crate::base64::{decoded, encoded, law_decodes_to_the_data};
use crate::count::solved_total;
use crate::cube::CubeState;
use crate::explore::{first_lowest, select_best, ExplorerResult};
use crate::geometry::{FACES, N, TOTAL};
use crate::moves::{all_valid, applied_all, Move};
use crate::phase::{detect_phase, phase_of, SolvePhase};
use crate::scan::{chars_of, contains_word, has_word, lowered, lowered_chars};
use crate::text::{decimal, decimal_string, padded, padded_string};

verus! {

/// Whether the solver works or waits.
#[derive(Clone, Copy, Debug, PartialEq, Eq, Structural)]
pub enum RunState {
    Paused,
    Running,
}

/// The state that the threads of the solver share.
pub struct SharedState {
    pub cube: CubeState,
    pub run_state: RunState,
    /// The number of moves made so far.
    pub total_moves: u64,
    /// The time that finding and making them took.
    pub total_elapsed_us: u64,
    pub phase: SolvePhase,
    /// The progress as of the last tick, in JSON.
    pub status_snapshot: String,
    /// The whole cube as of the last tick, in JSON.
    pub cube_snapshot: String,
    /// The threads are to end.
    pub shutdown: bool,
}

/// The name of a run state.
pub open spec fn run_name(run: RunState) -> Seq<char> {
    match run {
        RunState::Running => "running"@,
        RunState::Paused => "paused"@,
    }
}

/// The name of a phase.
pub open spec fn phase_name(phase: SolvePhase) -> Seq<char> {
    match phase {
        SolvePhase::CenterReduction => "center_reduction"@,
        SolvePhase::EdgePairing => "edge_pairing"@,
        SolvePhase::ThreeByThreeReduction => "3x3_reduction"@,
        SolvePhase::Solved => "solved"@,
    }
}

/// The JSON of the whole cube, up to the Base64 text of its cells.
pub open spec fn cube_json_head(run: RunState) -> Seq<char> {
    "{\"n\":"@ + decimal(N as nat) + ",\"faces\":"@ + decimal(FACES as nat) + ",\"state\":\""@
        + run_name(run) + "\",\"data\":\""@
}

/// The whole cube in JSON.
pub open spec fn cube_json(run: RunState, s: Seq<u8>) -> Seq<char> {
    cube_json_head(run) + encoded(s) + "\"}"@
}

/// Whoever takes the text between the head of the JSON and its last two characters, and decodes
/// it, has the cells of the cube.
pub proof fn law_cube_json_holds_the_cells(run: RunState, s: Seq<u8>)
    ensures
        ({
            let json = cube_json(run, s);
            decoded(json.subrange(cube_json_head(run).len() as int, json.len() - 2)) == s
        }),
{
    reveal_strlit("\"}");
    let json = cube_json(run, s);
    let head = cube_json_head(run);
    assert(json.subrange(head.len() as int, json.len() - 2) =~= encoded(s));
    law_decodes_to_the_data(s);
}

/// `num / den`, rounded to the nearest integer.
pub open spec fn nearest(num: int, den: int) -> int {
    (2 * num + den) / (2 * den)
}

/// The share of solved cells in percent, with six decimals.
pub open spec fn percent_text(solved: int) -> Seq<char> {
    let millionths = nearest(solved * 100_000_000, TOTAL as int);
    decimal((millionths / 1_000_000) as nat) + "."@ + padded((millionths % 1_000_000) as nat, 6)
}

/// The average time per move.
pub open spec fn average(total_us: u64, moves: u64) -> int {
    if moves > 0 {
        total_us as int / moves as int
    } else {
        0
    }
}

/// The progress in JSON.
pub open spec fn status_json(
    run: RunState,
    phase: SolvePhase,
    solved: int,
    moves: u64,
    total_us: u64,
) -> Seq<char> {
    "{\"state\":\""@ + run_name(run) + "\",\"phase\":\""@ + phase_name(phase)
        + "\",\"solved_cells\":"@ + decimal(solved as nat) + ",\"total_cells\":"@ + decimal(
        TOTAL as nat,
    ) + ",\"solved_pct\":"@ + percent_text(solved) + ",\"total_moves\":"@ + decimal(moves as nat)
        + ",\"avg_move_us\":"@ + decimal(average(total_us, moves) as nat) + "}"@
}

/// The name of a run state.
pub fn run_str(run: RunState) -> (res: &'static str)
    ensures
        res@ == run_name(run),
{
    match run {
        RunState::Running => "running",
        RunState::Paused => "paused",
    }
}

/// The name of a phase.
pub fn phase_str(phase: SolvePhase) -> (res: &'static str)
    ensures
        res@ == phase_name(phase),
{
    match phase {
        SolvePhase::CenterReduction => "center_reduction",
        SolvePhase::EdgePairing => "edge_pairing",
        SolvePhase::ThreeByThreeReduction => "3x3_reduction",
        SolvePhase::Solved => "solved",
    }
}

/// The whole cube in JSON.
pub fn cube_snapshot_json(run: RunState, cube: &CubeState) -> (res: String)
    ensures
        res@ == cube_json(run, cube@),
{
    let mut out = String::new();
    out.append("{\"n\":");
    out.append(decimal_string(N as u64).as_str());
    out.append(",\"faces\":");
    out.append(decimal_string(FACES as u64).as_str());
    out.append(",\"state\":\"");
    out.append(run_str(run));
    out.append("\",\"data\":\"");
    out.append(cube.to_base64().as_str());
    out.append("\"}");
    assert(Seq::<char>::empty() + "{\"n\":"@ =~= "{\"n\":"@);
    out
}

/// The share of solved cells in percent, with six decimals.
pub fn percent_string(solved: u32) -> (res: String)
    ensures
        res@ == percent_text(solved as int),
{
    let millionths = (solved as u64 * 200_000_000 + TOTAL as u64) / (2 * TOTAL as u64);
    let mut out = decimal_string(millionths / 1_000_000);
    out.append(".");
    out.append(padded_string(millionths % 1_000_000, 6).as_str());
    out
}

/// The progress in JSON.
pub fn status_snapshot_json(
    run: RunState,
    phase: SolvePhase,
    solved: u32,
    moves: u64,
    total_us: u64,
) -> (res: String)
    ensures
        res@ == status_json(run, phase, solved as int, moves, total_us),
{
    let avg_us = if moves > 0 { total_us / moves } else { 0 };
    let mut out = String::new();
    out.append("{\"state\":\"");
    out.append(run_str(run));
    out.append("\",\"phase\":\"");
    out.append(phase_str(phase));
    out.append("\",\"solved_cells\":");
    out.append(decimal_string(solved as u64).as_str());
    out.append(",\"total_cells\":");
    out.append(decimal_string(TOTAL as u64).as_str());
    out.append(",\"solved_pct\":");
    out.append(percent_string(solved).as_str());
    out.append(",\"total_moves\":");
    out.append(decimal_string(moves).as_str());
    out.append(",\"avg_move_us\":");
    out.append(decimal_string(avg_us).as_str());
    out.append("}");
    assert(Seq::<char>::empty() + "{\"state\":\""@ =~= "{\"state\":\""@);
    out
}

/// What a control request asks for.
#[derive(Clone, Copy, Debug, PartialEq, Eq, Structural)]
pub enum Command {
    Start,
    Pause,
    Shutdown,
    Unknown,
}

/// The command that the text of a control request names, in capitals or not. A request that
/// names several of them means the first of start, pause and shutdown.
pub open spec fn command_of(body: Seq<char>) -> Command {
    let text = lowered(body);
    if has_word(text, "start"@) || has_word(text, "resume"@) {
        Command::Start
    } else if has_word(text, "pause"@) || has_word(text, "stop"@) {
        Command::Pause
    } else if has_word(text, "shutdown"@) {
        Command::Shutdown
    } else {
        Command::Unknown
    }
}

/// What a command is answered with.
pub open spec fn command_reply(command: Command) -> Seq<char> {
    match command {
        Command::Start => "{\"ok\":true,\"state\":\"running\"}"@,
        Command::Pause => "{\"ok\":true,\"state\":\"paused\"}"@,
        Command::Shutdown => "{\"ok\":true,\"state\":\"shutdown\"}"@,
        Command::Unknown => "{\"ok\":false,\"error\":\"unknown command\"}"@,
    }
}

/// The shared state after a command.
pub open spec fn commanded(state: SharedState, command: Command) -> SharedState {
    match command {
        Command::Start => SharedState { run_state: RunState::Running, ..state },
        Command::Pause => SharedState { run_state: RunState::Paused, ..state },
        Command::Shutdown => SharedState { shutdown: true, ..state },
        Command::Unknown => state,
    }
}

/// No command takes back that the threads are to end.
pub proof fn law_shutdown_is_final(state: SharedState, command: Command)
    requires
        state.shutdown,
    ensures
        commanded(state, command).shutdown,
{
}

/// The command that the text of a control request names.
pub fn parse_command(body: &str) -> (res: Command)
    ensures
        res == command_of(body@),
{
    let chars = chars_of(body);
    let text = lowered_chars(&chars);
    if contains_word(&text, "start") || contains_word(&text, "resume") {
        Command::Start
    } else if contains_word(&text, "pause") || contains_word(&text, "stop") {
        Command::Pause
    } else if contains_word(&text, "shutdown") {
        Command::Shutdown
    } else {
        Command::Unknown
    }
}

/// What the executor does next.
#[derive(Clone, Copy, Debug, PartialEq, Eq, Structural)]
pub enum ExecutorAction {
    /// End.
    Exit,
    /// Wait and look again.
    Wait,
    /// Collect what the explorers found.
    Collect,
}

/// What the executor does next, asked to end or not, and running or not.
pub open spec fn next_action(shutdown: bool, run: RunState) -> ExecutorAction {
    if shutdown {
        ExecutorAction::Exit
    } else if run == RunState::Paused {
        ExecutorAction::Wait
    } else {
        ExecutorAction::Collect
    }
}

/// A total after `more` is added to it: it wraps around.
pub open spec fn added(total: u64, more: int) -> int {
    (total + more) % 0x1_0000_0000_0000_0000
}

/// `after` is `before` after `moves` are made: once the cube is solved, the threads are to end.
pub open spec fn carried_out(before: SharedState, after: SharedState, moves: Seq<Move>) -> bool {
    &&& after.cube@ == applied_all(before.cube@, moves)
    &&& after.phase == phase_of(after.cube@)
    &&& after.shutdown == (before.shutdown || after.phase == SolvePhase::Solved)
    &&& after.run_state == before.run_state
    &&& after.total_moves == before.total_moves
    &&& after.total_elapsed_us == before.total_elapsed_us
    &&& after.status_snapshot == before.status_snapshot
    &&& after.cube_snapshot == before.cube_snapshot
}

impl SharedState {
    /// Both snapshots tell the present state.
    pub open spec fn snapshots_current(self) -> bool {
        &&& self.status_snapshot@ == status_json(
            self.run_state,
            self.phase,
            solved_total(self.cube@),
            self.total_moves,
            self.total_elapsed_us,
        )
        &&& self.cube_snapshot@ == cube_json(self.run_state, self.cube@)
    }

    /// The state at the start: paused, with no moves made and no tick passed.
    pub fn new(cube: CubeState) -> (res: Self)
        ensures
            res.cube == cube,
            res.run_state == RunState::Paused,
            res.total_moves == 0,
            res.total_elapsed_us == 0,
            res.phase == SolvePhase::CenterReduction,
            res.status_snapshot@ == "{\"status\":\"initializing\"}"@,
            res.cube_snapshot@ == cube_json(RunState::Paused, cube@),
            !res.shutdown,
    {
        let cube_snapshot = cube_snapshot_json(RunState::Paused, &cube);
        SharedState {
            cube,
            run_state: RunState::Paused,
            total_moves: 0,
            total_elapsed_us: 0,
            phase: SolvePhase::CenterReduction,
            status_snapshot: "{\"status\":\"initializing\"}".to_owned(),
            cube_snapshot,
            shutdown: false,
        }
    }

    /// Brings both snapshots up to date. While the solver runs, also gives a copy of the cube for
    /// the explorers.
    pub fn tick(&mut self) -> (res: Option<CubeState>)
        ensures
            final(self).cube == old(self).cube,
            final(self).run_state == old(self).run_state,
            final(self).total_moves == old(self).total_moves,
            final(self).total_elapsed_us == old(self).total_elapsed_us,
            final(self).phase == old(self).phase,
            final(self).shutdown == old(self).shutdown,
            final(self).snapshots_current(),
            res == (if old(self).run_state == RunState::Running {
                Some(old(self).cube)
            } else {
                None
            }),
    {
        let solved = self.cube.solved_count();
        self.status_snapshot = status_snapshot_json(
            self.run_state,
            self.phase,
            solved,
            self.total_moves,
            self.total_elapsed_us,
        );
        self.cube_snapshot = cube_snapshot_json(self.run_state, &self.cube);
        if self.run_state == RunState::Running {
            Some(self.cube.clone())
        } else {
            None
        }
    }

    /// Carries out a control request and gives the answer to it.
    pub fn control(&mut self, body: &str) -> (reply: &'static str)
        ensures
            reply@ == command_reply(command_of(body@)),
            *final(self) == commanded(*old(self), command_of(body@)),
    {
        match parse_command(body) {
            Command::Start => {
                self.run_state = RunState::Running;
                "{\"ok\":true,\"state\":\"running\"}"
            },
            Command::Pause => {
                self.run_state = RunState::Paused;
                "{\"ok\":true,\"state\":\"paused\"}"
            },
            Command::Shutdown => {
                self.shutdown = true;
                "{\"ok\":true,\"state\":\"shutdown\"}"
            },
            Command::Unknown => "{\"ok\":false,\"error\":\"unknown command\"}",
        }
    }

    /// What the executor does next.
    pub fn executor_action(&self) -> (res: ExecutorAction)
        ensures
            res == (if self.shutdown {
                ExecutorAction::Exit
            } else if self.run_state == RunState::Paused {
                ExecutorAction::Wait
            } else {
                ExecutorAction::Collect
            }),
            res == next_action(self.shutdown, self.run_state),
    {
        if self.shutdown {
            ExecutorAction::Exit
        } else if self.run_state == RunState::Paused {
            ExecutorAction::Wait
        } else {
            ExecutorAction::Collect
        }
    }

    /// Makes the moves of the best result, if there is one that has any. Once the cube is solved,
    /// the threads are to end.
    pub fn execute(&mut self, results: &Vec<ExplorerResult>) -> (res: Option<usize>)
        requires
            forall|k: int|
                #[trigger] first_lowest(results@, k) ==> all_valid(results@[k].moves@),
        ensures
            res is Some <==> exists|k: int|
                #[trigger] first_lowest(results@, k) && results@[k].moves@.len() > 0,
            res is None ==> *final(self) == *old(self),
            res matches Some(k) ==> {
                &&& first_lowest(results@, k as int)
                &&& results@[k as int].moves@.len() > 0
                &&& final(self).cube@ == applied_all(old(self).cube@, results@[k as int].moves@)
                &&& final(self).phase == phase_of(final(self).cube@)
                &&& final(self).shutdown == (old(self).shutdown || final(self).phase
                    == SolvePhase::Solved)
                &&& final(self).run_state == old(self).run_state
                &&& final(self).total_moves == old(self).total_moves
                &&& final(self).total_elapsed_us == old(self).total_elapsed_us
                &&& final(self).status_snapshot == old(self).status_snapshot
                &&& final(self).cube_snapshot == old(self).cube_snapshot
                &&& carried_out(*old(self), *final(self), results@[k as int].moves@)
            },
    {
        match select_best(results) {
            None => None,
            Some(k) => {
                assert forall|j: int| #[trigger] first_lowest(results@, j) implies j == k by {
                    let a = results@[j];
                    let b = results@[k as int];
                }
                if results[k].moves.len() == 0 {
                    return None;
                }
                self.cube.apply_seq(results[k].moves.as_slice());
                let phase = detect_phase(&self.cube);
                self.phase = phase;
                if phase == SolvePhase::Solved {
                    self.shutdown = true;
                }
                Some(k)
            },
        }
    }

    /// Adds moves made, and the time that making and finding them took, to the totals. The totals
    /// wrap around.
    pub fn record(&mut self, moves: u64, making_us: u64, finding_us: u64)
        requires
            making_us + finding_us <= u64::MAX,
        ensures
            final(self).total_moves == (old(self).total_moves + moves) % 0x1_0000_0000_0000_0000,
            final(self).total_elapsed_us == (old(self).total_elapsed_us + making_us + finding_us)
                % 0x1_0000_0000_0000_0000,
            final(self).total_moves == added(old(self).total_moves, moves as int),
            final(self).total_elapsed_us == added(
                old(self).total_elapsed_us,
                making_us + finding_us,
            ),
            *final(self) == (SharedState {
                total_moves: final(self).total_moves,
                total_elapsed_us: final(self).total_elapsed_us,
                ..*old(self)
            }),
    {
        self.total_moves = self.total_moves.wrapping_add(moves);
        self.total_elapsed_us = self.total_elapsed_us.wrapping_add(making_us + finding_us);
    }

    /// Adds to the totals what carrying out `best` comes to: its moves, the time that finding them
    /// took, and the time `making_us` that making them took. The totals wrap around.
    pub fn account(&mut self, best: &ExplorerResult, making_us: u64)
        requires
            making_us + best.elapsed_us <= u64::MAX,
        ensures
            final(self).total_moves == (old(self).total_moves + best.moves@.len())
                % 0x1_0000_0000_0000_0000,
            final(self).total_elapsed_us == (old(self).total_elapsed_us + making_us
                + best.elapsed_us) % 0x1_0000_0000_0000_0000,
            final(self).total_moves == added(old(self).total_moves, best.moves@.len() as int),
            final(self).total_elapsed_us == added(
                old(self).total_elapsed_us,
                making_us + best.elapsed_us,
            ),
            *final(self) == (SharedState {
                total_moves: final(self).total_moves,
                total_elapsed_us: final(self).total_elapsed_us,
                ..*old(self)
            }),
    {
        self.record(best.moves.len() as u64, making_us, best.elapsed_us);
    }
}

/// The time between two ticks.
pub const TICK_NS: u128 = 200_000_000;

/// How long the executor collects results at a time.
pub const COLLECT_NS: u128 = 20_000_000;

/// How long the executor waits for one result at most.
pub const RECEIVE_NS: u128 = 5_000_000;

/// A tick is due when the last is `elapsed_ns` ago.
pub open spec fn is_tick_due(elapsed_ns: int) -> bool {
    elapsed_ns >= TICK_NS
}

/// How long to wait for the next result when collecting began `elapsed_ns` ago.
pub open spec fn wait_after(elapsed_ns: int) -> Option<int> {
    if elapsed_ns >= COLLECT_NS {
        None
    } else if COLLECT_NS - elapsed_ns < RECEIVE_NS {
        Some(COLLECT_NS - elapsed_ns)
    } else {
        Some(RECEIVE_NS as int)
    }
}

/// Whether a tick is due when the last is `elapsed_ns` ago.
pub fn tick_due(elapsed_ns: u128) -> (due: bool)
    ensures
        due == (elapsed_ns >= 200_000_000),
        due == is_tick_due(elapsed_ns as int),
{
    elapsed_ns >= TICK_NS
}

/// How long to wait for the next result when collecting began `elapsed_ns` ago; nothing once the
/// time for collecting is over.
pub fn collect_wait(elapsed_ns: u128) -> (res: Option<u64>)
    ensures
        res == (if elapsed_ns >= 20_000_000 {
            None
        } else if elapsed_ns > 15_000_000 {
            Some((20_000_000 - elapsed_ns) as u64)
        } else {
            Some(5_000_000u64)
        }),
        res is Some == wait_after(elapsed_ns as int) is Some,
        res matches Some(ns) ==> wait_after(elapsed_ns as int) == Some(ns as int),
{
    if elapsed_ns >= COLLECT_NS {
        return None;
    }
    let left = COLLECT_NS - elapsed_ns;
    Some((if left < RECEIVE_NS { left } else { RECEIVE_NS }) as u64)
}

} // verus!

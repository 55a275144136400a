//! What control requests mean, what they change and what the snapshots tell.

use vstd::prelude::*;

use crate::base64::encoded;
use crate::geometry::TOTAL;
use crate::moves::{applied_all, Move};
use crate::phase::{law_phase_tells_what_is_solved, phase_of, SolvePhase};
use crate::scan::{
    has_word, law_found_word_stands_in_text, law_small_letters_stay, law_word_is_found_in_text,
    lowered, stands_at,
};
use crate::server::{
    added, average, carried_out, command_of, command_reply, commanded, cube_json, is_tick_due,
    nearest, next_action, phase_name, run_name, status_json, wait_after, Command, ExecutorAction,
    RunState, SharedState,
};
use crate::text::{decimal, padded};

verus! {

/// `word` stands nowhere in `text`.
pub open spec fn lacks(text: Seq<char>, word: Seq<char>) -> bool {
    forall|i: int|
        0 <= i && i + word.len() <= text.len() ==> (#[trigger] text.skip(i)).take(
            word.len() as int,
        ) != word
}

/// A word is looked for in all places.
proof fn lemma_lacks(text: Seq<char>, word: Seq<char>)
    ensures
        lacks(text, word) <==> !has_word(text, word),
{
    if lacks(text, word) && has_word(text, word) {
        let i = law_found_word_stands_in_text(text, word);
        assert(text.skip(i).take(word.len() as int) =~= text.subrange(i, i + word.len()));
        assert(text.subrange(i, i + word.len()) =~= word);
    }
    if !has_word(text, word) {
        assert forall|i: int| 0 <= i && i + word.len() <= text.len() implies (#[trigger] text.skip(
            i,
        )).take(word.len() as int) != word by {
            assert(!stands_at(text, word, i));
            assert(text.skip(i).take(word.len() as int) =~= text.subrange(i, i + word.len()));
        }
    }
}

/// A small word in the midst of other text is found after capitals are made small.
proof fn lemma_small_word(before: Seq<char>, word: Seq<char>, behind: Seq<char>)
    requires
        forall|i: int| 0 <= i < word.len() ==> !(65 <= #[trigger] word[i] as int <= 90),
    ensures
        has_word(lowered(before + word + behind), word),
{
    law_small_letters_stay(word);
    assert(lowered(before + word + behind) =~= lowered(before) + word + lowered(behind));
    law_word_is_found_in_text(lowered(before), word, lowered(behind));
}

/// A request with `start` or `resume` anywhere in it means to start, whatever else it says.
pub proof fn law_start_and_resume_mean_start(before: Seq<char>, behind: Seq<char>)
    ensures
        command_of(before + "start"@ + behind) == Command::Start,
        command_of(before + "resume"@ + behind) == Command::Start,
{
    reveal_strlit("start");
    reveal_strlit("resume");
    lemma_small_word(before, "start"@, behind);
    lemma_small_word(before, "resume"@, behind);
}

/// A request with `pause` or `stop` anywhere in it, and neither `start` nor `resume`, in capitals
/// or not, means to pause.
pub proof fn law_pause_and_stop_mean_pause(text: Seq<char>, before: Seq<char>, behind: Seq<char>)
    requires
        text == before + "pause"@ + behind || text == before + "stop"@ + behind,
        lacks(lowered(text), "start"@),
        lacks(lowered(text), "resume"@),
    ensures
        command_of(text) == Command::Pause,
{
    reveal_strlit("pause");
    reveal_strlit("stop");
    lemma_lacks(lowered(text), "start"@);
    lemma_lacks(lowered(text), "resume"@);
    lemma_small_word(before, "pause"@, behind);
    lemma_small_word(before, "stop"@, behind);
}

/// A request with `shutdown` anywhere in it, and none of the other words, in capitals or not, means
/// to shut down.
pub proof fn law_shutdown_means_shutdown(text: Seq<char>, before: Seq<char>, behind: Seq<char>)
    requires
        text == before + "shutdown"@ + behind,
        lacks(lowered(text), "start"@),
        lacks(lowered(text), "resume"@),
        lacks(lowered(text), "pause"@),
        lacks(lowered(text), "stop"@),
    ensures
        command_of(text) == Command::Shutdown,
{
    reveal_strlit("shutdown");
    lemma_lacks(lowered(text), "start"@);
    lemma_lacks(lowered(text), "resume"@);
    lemma_lacks(lowered(text), "pause"@);
    lemma_lacks(lowered(text), "stop"@);
    lemma_small_word(before, "shutdown"@, behind);
}

/// A request that has none of the five words, in capitals or not, is no command; every other is.
pub proof fn law_only_the_words_are_commands(text: Seq<char>)
    ensures
        command_of(text) == Command::Unknown <==> lacks(lowered(text), "start"@) && lacks(
            lowered(text),
            "resume"@,
        ) && lacks(lowered(text), "pause"@) && lacks(lowered(text), "stop"@) && lacks(
            lowered(text),
            "shutdown"@,
        ),
        command_of(text) == Command::Start <==> !lacks(lowered(text), "start"@) || !lacks(
            lowered(text),
            "resume"@,
        ),
        command_of(text) == Command::Shutdown ==> lacks(lowered(text), "pause"@) && lacks(
            lowered(text),
            "stop"@,
        ),
{
    lemma_lacks(lowered(text), "start"@);
    lemma_lacks(lowered(text), "resume"@);
    lemma_lacks(lowered(text), "pause"@);
    lemma_lacks(lowered(text), "stop"@);
    lemma_lacks(lowered(text), "shutdown"@);
}

/// Requests that differ in nothing but capitals and small letters mean the same.
pub proof fn law_commands_ignore_capitals(a: Seq<char>, b: Seq<char>)
    requires
        a.len() == b.len(),
        forall|i: int|
            0 <= i < a.len() ==> #[trigger] a[i] == b[i] || (65 <= a[i] as int <= 90 && b[i] as int
                == a[i] as int + 32) || (65 <= b[i] as int <= 90 && a[i] as int == b[i] as int
                + 32),
    ensures
        command_of(a) == command_of(b),
{
    assert forall|i: int| 0 <= i < a.len() implies #[trigger] lowered(a)[i] == lowered(b)[i] by {
        assert(a[i] == a[i]);
    }
    assert(lowered(a) =~= lowered(b));
}

/// No word stands in a shorter text.
proof fn lemma_lacks_longer(text: Seq<char>, word: Seq<char>)
    requires
        text.len() < word.len(),
    ensures
        lacks(text, word),
{
}

/// A word whose first two characters do not stand together in a text does not stand in it.
proof fn lemma_lacks_by_start(text: Seq<char>, word: Seq<char>)
    requires
        word.len() >= 2,
        forall|i: int| 0 <= i < text.len() - 1 ==> #[trigger] text[i] != word[0] || text[i + 1]
            != word[1],
    ensures
        lacks(text, word),
{
    assert forall|i: int| 0 <= i && i + word.len() <= text.len() implies (#[trigger] text.skip(
        i,
    )).take(word.len() as int) != word by {
        let part = text.skip(i).take(word.len() as int);
        assert(part[0] == text[i] && part[1] == text[i + 1]);
    }
}

proof fn lemma_pause_alone()
    ensures
        command_of("pause"@) == Command::Pause,
{
    reveal_strlit("start");
    reveal_strlit("resume");
    reveal_strlit("pause");
    let (text, none) = ("pause"@, Seq::<char>::empty());
    law_small_letters_stay(text);
    lemma_lacks_by_start(text, "start"@);
    lemma_lacks_longer(text, "resume"@);
    assert(none + text + none =~= text);
    law_pause_and_stop_mean_pause(text, none, none);
}

proof fn lemma_stop_alone()
    ensures
        command_of("stop"@) == Command::Pause,
{
    reveal_strlit("start");
    reveal_strlit("resume");
    reveal_strlit("stop");
    let (text, none) = ("stop"@, Seq::<char>::empty());
    law_small_letters_stay(text);
    lemma_lacks_longer(text, "start"@);
    lemma_lacks_longer(text, "resume"@);
    assert(none + text + none =~= text);
    law_pause_and_stop_mean_pause(text, none, none);
}

proof fn lemma_shutdown_alone()
    ensures
        command_of("shutdown"@) == Command::Shutdown,
{
    reveal_strlit("start");
    reveal_strlit("resume");
    reveal_strlit("pause");
    reveal_strlit("stop");
    reveal_strlit("shutdown");
    let (text, none) = ("shutdown"@, Seq::<char>::empty());
    law_small_letters_stay(text);
    lemma_lacks_by_start(text, "start"@);
    lemma_lacks_by_start(text, "resume"@);
    lemma_lacks_by_start(text, "pause"@);
    lemma_lacks_by_start(text, "stop"@);
    assert(none + text + none =~= text);
    law_shutdown_means_shutdown(text, none, none);
}

/// Each of the five words alone means what it says.
pub proof fn law_words_alone_are_commands()
    ensures
        command_of("start"@) == Command::Start,
        command_of("resume"@) == Command::Start,
        command_of("pause"@) == Command::Pause,
        command_of("stop"@) == Command::Pause,
        command_of("shutdown"@) == Command::Shutdown,
{
    let none = Seq::<char>::empty();
    law_start_and_resume_mean_start(none, none);
    assert(none + "start"@ + none =~= "start"@);
    assert(none + "resume"@ + none =~= "resume"@);
    lemma_pause_alone();
    lemma_stop_alone();
    lemma_shutdown_alone();
}

/// A command to start or to pause sets the run state, a command to shut down asks the threads to
/// end, and nothing else changes, whatever the state was.
pub proof fn law_commands_change_one_thing(state: SharedState, command: Command)
    ensures
        ({
            let after = commanded(state, command);
            &&& after.run_state == (match command {
                Command::Start => RunState::Running,
                Command::Pause => RunState::Paused,
                _ => state.run_state,
            })
            &&& after.shutdown == (state.shutdown || command == Command::Shutdown)
            &&& after.cube == state.cube
            &&& after.total_moves == state.total_moves
            &&& after.total_elapsed_us == state.total_elapsed_us
            &&& after.phase == state.phase
            &&& after.status_snapshot == state.status_snapshot
            &&& after.cube_snapshot == state.cube_snapshot
        }),
{
}

/// The reply to a command to start or to pause names the state that the solver is in after it; only
/// what is no command is refused.
pub proof fn law_replies_name_the_state(state: SharedState, command: Command)
    ensures
        command == Command::Start || command == Command::Pause ==> command_reply(command)
            == "{\"ok\":true,\"state\":\""@ + run_name(commanded(state, command).run_state)
            + "\"}"@,
        command == Command::Shutdown ==> command_reply(command)
            == "{\"ok\":true,\"state\":\"shutdown\"}"@,
        command == Command::Unknown ==> command_reply(command)
            == "{\"ok\":false,\"error\":\"unknown command\"}"@,
{
    reveal_strlit("{\"ok\":true,\"state\":\"");
    reveal_strlit("running");
    reveal_strlit("paused");
    reveal_strlit("\"}");
    reveal_strlit("{\"ok\":true,\"state\":\"running\"}");
    reveal_strlit("{\"ok\":true,\"state\":\"paused\"}");
    assert("{\"ok\":true,\"state\":\""@ + "running"@ + "\"}"@
        =~= "{\"ok\":true,\"state\":\"running\"}"@);
    assert("{\"ok\":true,\"state\":\""@ + "paused"@ + "\"}"@
        =~= "{\"ok\":true,\"state\":\"paused\"}"@);
}

/// States and phases have names of their own.
pub proof fn law_names_of_states_and_phases()
    ensures
        run_name(RunState::Running) == "running"@,
        run_name(RunState::Paused) == "paused"@,
        phase_name(SolvePhase::CenterReduction) == "center_reduction"@,
        phase_name(SolvePhase::EdgePairing) == "edge_pairing"@,
        phase_name(SolvePhase::ThreeByThreeReduction) == "3x3_reduction"@,
        phase_name(SolvePhase::Solved) == "solved"@,
{
}

/// The progress tells the state, the phase, the solved cells of all cells, their share in percent
/// to the nearest millionth, the moves, and the average time per move, rounded down.
pub proof fn law_status_tells_the_figures(
    run: RunState,
    phase: SolvePhase,
    solved: int,
    moves: u64,
    total_us: u64,
) -> (figures: (int, int))
    requires
        0 <= solved,
    ensures
        ({
            let (millionths, avg) = figures;
            &&& 0 <= millionths
            &&& 0 <= avg
            &&& 480000 * millionths - 240000 <= 200000000 * solved
            &&& 200000000 * solved < 480000 * millionths + 240000
            &&& moves == 0 ==> avg == 0
            &&& moves > 0 ==> avg * moves <= total_us < (avg + 1) * moves
            &&& status_json(run, phase, solved, moves, total_us) == "{\"state\":\""@ + run_name(run)
                + "\",\"phase\":\""@ + phase_name(phase) + "\",\"solved_cells\":"@ + decimal(
                solved as nat,
            ) + ",\"total_cells\":"@ + decimal(240000) + ",\"solved_pct\":"@ + (decimal(
                (millionths / 1000000) as nat,
            ) + "."@ + padded((millionths % 1000000) as nat, 6)) + ",\"total_moves\":"@ + decimal(
                moves as nat,
            ) + ",\"avg_move_us\":"@ + decimal(avg as nat) + "}"@
        }),
{
    let millionths = nearest(solved * 100_000_000, TOTAL as int);
    let avg = average(total_us, moves);
    assert(2 * (TOTAL as int) == 480000);
    assert(millionths == (2 * (solved * 100_000_000) + 240000) / 480000);
    let rest = 2 * (solved * 100_000_000) + 240000 - 480000 * millionths;
    assert(0 <= rest < 480000);
    if moves > 0 {
        let (t, m) = (total_us as int, moves as int);
        assert(t / m * m <= t < (t / m + 1) * m && 0 <= t / m) by (nonlinear_arith)
            requires
                0 <= t,
                0 < m,
        ;
    }
    (millionths, avg)
}

/// The JSON of the cube gives its size, the state and all cells.
pub proof fn law_cube_json_tells_the_cube(run: RunState, s: Seq<u8>)
    ensures
        cube_json(run, s) == "{\"n\":200,\"faces\":6,\"state\":\""@ + run_name(run)
            + "\",\"data\":\""@ + encoded(s) + "\"}"@,
{
    reveal_strlit("{\"n\":200,\"faces\":6,\"state\":\"");
    reveal_strlit("{\"n\":");
    reveal_strlit(",\"faces\":");
    reveal_strlit(",\"state\":\"");
    assert(decimal(200) =~= seq!['2', '0', '0']) by {
        reveal_with_fuel(decimal, 4);
    }
    assert(decimal(6) =~= seq!['6']);
    assert("{\"n\":"@ + decimal(200) + ",\"faces\":"@ + decimal(6) + ",\"state\":\""@
        =~= "{\"n\":200,\"faces\":6,\"state\":\""@);
}

/// Asked to end, the executor ends, running or not; else it waits while the solver is paused and
/// works while it runs.
pub proof fn law_executor_obeys(shutdown: bool, run: RunState)
    ensures
        next_action(shutdown, run) == ExecutorAction::Exit <==> shutdown,
        next_action(shutdown, run) == ExecutorAction::Wait <==> !shutdown && run
            == RunState::Paused,
        next_action(shutdown, run) == ExecutorAction::Collect <==> !shutdown && run
            == RunState::Running,
{
}

/// What the executor does next follows from the last command: it works after a start, waits after a
/// pause and ends after a shutdown, which no later command takes back.
pub proof fn law_executor_follows_the_commands(state: SharedState, later: Command)
    ensures
        ({
            let started = commanded(state, Command::Start);
            let paused = commanded(state, Command::Pause);
            let ended = commanded(commanded(state, Command::Shutdown), later);
            &&& !state.shutdown ==> next_action(started.shutdown, started.run_state)
                == ExecutorAction::Collect
            &&& !state.shutdown ==> next_action(paused.shutdown, paused.run_state)
                == ExecutorAction::Wait
            &&& next_action(ended.shutdown, ended.run_state) == ExecutorAction::Exit
        }),
{
}

/// Carrying out moves makes them on the cube. The threads are asked to end exactly if they were
/// before or every cell now has the colour of its face; the run state, the totals and the snapshots
/// stay as they are.
pub proof fn law_solving_ends_the_threads(
    before: SharedState,
    after: SharedState,
    moves: Seq<Move>,
)
    requires
        after.cube@.len() == 240000,
        carried_out(before, after, moves),
    ensures
        after.cube@ == applied_all(before.cube@, moves),
        after.shutdown <==> before.shutdown || (forall|i: int|
            0 <= i < 240000 ==> #[trigger] after.cube@[i] == i / 40000),
        after.phase == SolvePhase::Solved <==> (forall|i: int|
            0 <= i < 240000 ==> #[trigger] after.cube@[i] == i / 40000),
        after.phase == phase_of(after.cube@),
        after.run_state == before.run_state,
        after.total_moves == before.total_moves,
        after.total_elapsed_us == before.total_elapsed_us,
        after.status_snapshot == before.status_snapshot,
        after.cube_snapshot == before.cube_snapshot,
{
    law_phase_tells_what_is_solved(after.cube@, 0);
}

/// What is added to a total is added in full where the total has room for it, and adding twice is
/// adding the sum.
pub proof fn law_totals_add_up(total: u64, a: u64, b: u64)
    ensures
        total + a <= u64::MAX ==> added(total, a as int) == total + a,
        total + a > u64::MAX ==> added(total, a as int) == total + a - u64::MAX - 1,
        0 <= added(total, a as int) <= u64::MAX,
        added(added(total, a as int) as u64, b as int) == added(total, a + b),
{
}

/// There are five ticks in a second: one is due when a fifth of a second has passed.
pub proof fn law_ticks_come_five_times_a_second(elapsed_ns: int)
    ensures
        is_tick_due(elapsed_ns) <==> 5 * elapsed_ns >= 1_000_000_000,
{
}

/// Results are collected for a fiftieth of a second, no wait goes beyond that, and none is longer
/// than a two-hundredth; each is as long as these two allow.
pub proof fn law_collecting_keeps_its_time(elapsed_ns: int)
    requires
        0 <= elapsed_ns,
    ensures
        wait_after(elapsed_ns) is Some <==> 50 * elapsed_ns < 1_000_000_000,
        wait_after(elapsed_ns) matches Some(ns) ==> {
            &&& 0 < ns
            &&& 200 * ns <= 1_000_000_000
            &&& 50 * (elapsed_ns + ns) <= 1_000_000_000
            &&& 200 * ns == 1_000_000_000 || 50 * (elapsed_ns + ns) == 1_000_000_000
        },
{
}

} // verus!

//! Game state and the tick loop: interpreting one invocation of the
//! external decision process per tick, applying its displacement, and
//! aborting the run at the first failure.

use vstd::prelude::*;
use vstd::string::StrSliceExecFns;
use vstd::string::StringExecFns;

use crate::action::parse_action;
use crate::action::parse_action_spec;
use crate::text::trim_range;
use crate::text::trim_spec;

verus! {

/// Authoritative state of one simulation run.
///
/// `tick` counts the decisions processed so far; `player_position` is the
/// component-wise sum of every displacement applied so far.
#[derive(Clone, Copy, Debug, PartialEq, Eq)]
pub struct GameState {
    pub tick: u32,
    pub player_position: (i64, i64),
}

impl GameState {
    /// Each applied displacement is an `i32`, so after `tick` decisions the
    /// position stays within `tick` times the extreme single moves. This is
    /// what keeps the `i64` addition in [`engine_step`] exact.
    pub open spec fn wf(self) -> bool {
        &&& -(self.tick as int) * 0x8000_0000 <= self.player_position.0
            <= (self.tick as int) * 0x7fff_ffff
        &&& -(self.tick as int) * 0x8000_0000 <= self.player_position.1
            <= (self.tick as int) * 0x7fff_ffff
    }

    /// The zero state every run starts from.
    pub fn initial() -> (r: GameState)
        ensures
            r.tick == 0,
            r.player_position.0 == 0,
            r.player_position.1 == 0,
            r.wf(),
    {
        GameState { tick: 0, player_position: (0, 0) }
    }
}

/// What one spawn-and-collect cycle of the external decision process
/// produced, as handed back by the surrounding application.
#[derive(Debug)]
pub enum Invocation {
    /// The process could not be started at all.
    SpawnFailed,
    /// The process ran to completion; both captured streams, verbatim.
    Completed { stdout: String, stderr: String },
}

/// Snapshot returned exactly once per run: the state at the moment the
/// run stopped, and a description of the failure if it stopped early.
#[derive(Debug)]
pub struct SimulationResult {
    pub final_state: GameState,
    pub error: Option<String>,
}

/// The displacement a tick's invocation decides, if any. Anything written
/// to the error stream is fatal regardless of the output stream; otherwise
/// the output must satisfy the action grammar.
pub open spec fn step_decision(inv: Invocation) -> Option<(i32, i32)> {
    match inv {
        Invocation::SpawnFailed => None,
        Invocation::Completed { stdout, stderr } => if stderr@.len() > 0 {
            None
        } else {
            parse_action_spec(stdout@)
        },
    }
}

/// The exact error text a failing invocation surfaces.
pub open spec fn failure_message(inv: Invocation) -> Seq<char> {
    match inv {
        Invocation::SpawnFailed => "Failed to run the Python script"@,
        Invocation::Completed { stdout, stderr } => if stderr@.len() > 0 {
            "Bot execution error: "@ + stderr@
        } else {
            "Invalid bot output: "@ + trim_spec(stdout@)
        },
    }
}

/// Advances the state by one tick: on a valid decision the displacement
/// is added to the position and nothing is returned; on any failure the
/// position is left alone and the error text is returned. The tick
/// counter advances either way, so an aborting tick is counted.
pub fn engine_step(state: &mut GameState, inv: &Invocation) -> (r: Option<String>)
    requires
        old(state).wf(),
        old(state).tick < u32::MAX,
    ensures
        final(state).wf(),
        final(state).tick == old(state).tick + 1,
        match step_decision(*inv) {
            Some(d) => r is None && final(state).player_position.0 == old(
                state,
            ).player_position.0 + d.0 && final(state).player_position.1 == old(
                state,
            ).player_position.1 + d.1,
            None => final(state).player_position == old(state).player_position && (r matches Some(
                m,
            ) && m@ == failure_message(*inv)),
        },
{
    state.tick = state.tick + 1;
    match inv {
        Invocation::SpawnFailed => Some(String::from_str("Failed to run the Python script")),
        Invocation::Completed { stdout, stderr } => {
            if !stderr.as_str().is_empty() {
                Some(String::from_str("Bot execution error: ").concat(stderr.as_str()))
            } else {
                match parse_action(stdout.as_str()) {
                    Ok((dx, dy)) => {
                        proof {
                            assert(state.player_position.0 + (dx as i64) <= ((old(
                                state,
                            ).tick as int) + 1) * 0x7fff_ffff);
                            assert(state.player_position.0 + (dx as i64) >= -((old(
                                state,
                            ).tick as int) + 1) * 0x8000_0000);
                            assert(state.player_position.1 + (dy as i64) <= ((old(
                                state,
                            ).tick as int) + 1) * 0x7fff_ffff);
                            assert(state.player_position.1 + (dy as i64) >= -((old(
                                state,
                            ).tick as int) + 1) * 0x8000_0000);
                        }
                        let nx = state.player_position.0 + (dx as i64);
                        let ny = state.player_position.1 + (dy as i64);
                        state.player_position = (nx, ny);
                        None
                    },
                    Err(()) => {
                        let line = stdout.as_str();
                        let n = line.unicode_len();
                        let (a, b) = trim_range(line, 0, n);
                        proof {
                            assert(line@.subrange(0, n as int) =~= line@);
                        }
                        let trimmed = line.substring_char(a, b);
                        Some(String::from_str("Invalid bot output: ").concat(trimmed))
                    },
                }
            }
        },
    }
}

/// Index of the first tick (counting from 0) among the first `n` whose
/// invocation fails to decide, if any.
pub open spec fn first_failure(invs: Seq<Invocation>, n: int) -> Option<int>
    decreases n,
{
    if n <= 0 {
        None
    } else {
        match first_failure(invs, n - 1) {
            Some(j) => Some(j),
            None => if step_decision(invs[n - 1]) is None {
                Some(n - 1)
            } else {
                None
            },
        }
    }
}

/// Sum of the horizontal components of the decisions of the first `k`
/// ticks (failing ticks contribute nothing).
pub open spec fn sum_dx(invs: Seq<Invocation>, k: int) -> int
    decreases k,
{
    if k <= 0 {
        0
    } else {
        sum_dx(invs, k - 1) + match step_decision(invs[k - 1]) {
            Some(d) => d.0 as int,
            None => 0,
        }
    }
}

/// Sum of the vertical components of the decisions of the first `k`
/// ticks (failing ticks contribute nothing).
pub open spec fn sum_dy(invs: Seq<Invocation>, k: int) -> int
    decreases k,
{
    if k <= 0 {
        0
    } else {
        sum_dy(invs, k - 1) + match step_decision(invs[k - 1]) {
            Some(d) => d.1 as int,
            None => 0,
        }
    }
}

/// A failure among the first `k` ticks stays the first failure of any
/// longer prefix.
pub proof fn lemma_first_failure_extend(invs: Seq<Invocation>, k: int, n: int)
    requires
        0 <= k <= n,
        first_failure(invs, k) is Some,
    ensures
        first_failure(invs, n) == first_failure(invs, k),
    decreases n,
{
    if n > k {
        lemma_first_failure_extend(invs, k, n - 1);
    }
}

/// Drives a whole run over the recorded per-tick invocation outcomes,
/// stopping at the first failure.
///
/// On a clean run the result carries no error, `num_ticks` counted ticks
/// and the summed position; on a failure at tick `j + 1` it carries that
/// tick's error text, the tick counter `j + 1` and the sum of the `j`
/// displacements applied before it.
#[verifier::loop_isolation(false)]
pub fn run_simulation(invocations: &Vec<Invocation>, num_ticks: u32) -> (r: SimulationResult)
    requires
        invocations@.len() >= num_ticks,
    ensures
        r.final_state.wf(),
        match first_failure(invocations@, num_ticks as int) {
            None => r.error is None && r.final_state.tick == num_ticks
                && r.final_state.player_position.0 == sum_dx(invocations@, num_ticks as int)
                && r.final_state.player_position.1 == sum_dy(invocations@, num_ticks as int),
            Some(j) => (r.error matches Some(m) && m@ == failure_message(invocations@[j]))
                && r.final_state.tick == j + 1 && r.final_state.player_position.0 == sum_dx(
                invocations@,
                j,
            ) && r.final_state.player_position.1 == sum_dy(invocations@, j),
        },
{
    let mut state = GameState::initial();
    let mut i: u32 = 0;
    while i < num_ticks
        invariant
            i <= num_ticks,
            state.wf(),
            state.tick == i,
            first_failure(invocations@, i as int) is None,
            state.player_position.0 == sum_dx(invocations@, i as int),
            state.player_position.1 == sum_dy(invocations@, i as int),
        decreases num_ticks - i,
    {
        let outcome = engine_step(&mut state, &invocations[i as usize]);
        match outcome {
            Some(msg) => {
                proof {
                    assert(first_failure(invocations@, i as int + 1) == Some(i as int));
                    lemma_first_failure_extend(invocations@, i as int + 1, num_ticks as int);
                }
                return SimulationResult { final_state: state, error: Some(msg) };
            },
            None => {},
        }
        i = i + 1;
    }
    SimulationResult { final_state: state, error: None }
}

/// A run whose every tick decides a displacement never aborts. Together
/// with [`run_simulation`]'s contract: the final tick counter equals the
/// budget and the final position is the ordered component-wise sum of
/// the decided displacements.
pub proof fn lemma_complete_run(invs: Seq<Invocation>, n: int)
    requires
        0 <= n,
        forall|i: int| 0 <= i < n ==> step_decision(#[trigger] invs[i]) is Some,
    ensures
        first_failure(invs, n) is None,
    decreases n,
{
    if n > 0 {
        lemma_complete_run(invs, n - 1);
    }
}

/// Every failure description is non-empty text.
pub proof fn lemma_failure_message_nonempty(inv: Invocation)
    ensures
        failure_message(inv).len() > 0,
{
    reveal_strlit("Failed to run the Python script");
    reveal_strlit("Bot execution error: ");
    reveal_strlit("Invalid bot output: ");
}

/// Abort on first failure: if the ticks before `k` all decide and tick
/// `k + 1` fails, the whole run fails exactly there. Together with
/// [`run_simulation`]'s contract: the returned state counts `k + 1`
/// ticks, its position sums only the `k` displacements applied before
/// the failure, and the error text is present and non-empty.
pub proof fn lemma_abort_on_first_failure(invs: Seq<Invocation>, n: int, k: int)
    requires
        0 <= k < n,
        step_decision(invs[k]) is None,
        forall|i: int| 0 <= i < k ==> step_decision(#[trigger] invs[i]) is Some,
    ensures
        first_failure(invs, n) == Some(k),
        failure_message(invs[k]).len() > 0,
{
    lemma_complete_run(invs, k);
    assert(first_failure(invs, k + 1) == Some(k));
    lemma_first_failure_extend(invs, k + 1, n);
    lemma_failure_message_nonempty(invs[k]);
}

} // verus!

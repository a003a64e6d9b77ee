use bot_sim::engine::engine_step;
use bot_sim::engine::run_simulation;
use bot_sim::engine::GameState;
use bot_sim::engine::Invocation;
use bot_sim::DEFAULT_NUM_TICKS;

fn ok_output(line: &str) -> Invocation {
    Invocation::Completed { stdout: line.to_string(), stderr: String::new() }
}

#[test]
fn clean_run_counts_every_tick() {
    let invocations: Vec<Invocation> = (0..10).map(|_| ok_output("(1, 0)\n")).collect();
    let result = run_simulation(&invocations, 10);
    assert!(result.error.is_none());
    assert_eq!(result.final_state.tick, 10);
    assert_eq!(result.final_state.player_position, (10, 0));
}

#[test]
fn clean_run_sums_displacements_in_order() {
    let invocations = vec![ok_output("(3, -1)"), ok_output("(-5, 10)"), ok_output("(2, 2)")];
    let result = run_simulation(&invocations, 3);
    assert!(result.error.is_none());
    assert_eq!(result.final_state.tick, 3);
    assert_eq!(result.final_state.player_position, (0, 11));
}

#[test]
fn script_error_on_third_tick_aborts() {
    let mut invocations: Vec<Invocation> = vec![ok_output("(2, 3)"), ok_output("(2, 3)")];
    invocations.push(Invocation::Completed {
        stdout: String::new(),
        stderr: "Traceback: boom".to_string(),
    });
    for _ in 3..10 {
        invocations.push(ok_output("(1, 1)"));
    }
    let result = run_simulation(&invocations, 10);
    assert_eq!(result.error, Some("Bot execution error: Traceback: boom".to_string()));
    assert_eq!(result.final_state.tick, 3);
    assert_eq!(result.final_state.player_position, (4, 6));
}

#[test]
fn bad_output_on_first_tick_aborts_with_the_text() {
    let mut invocations: Vec<Invocation> = vec![ok_output("banana\n")];
    for _ in 1..10 {
        invocations.push(ok_output("(1, 0)"));
    }
    let result = run_simulation(&invocations, 10);
    let message = result.error.expect("the run must abort");
    assert_eq!(message, "Invalid bot output: banana");
    assert!(message.contains("banana"));
    assert_eq!(result.final_state.tick, 1);
    assert_eq!(result.final_state.player_position, (0, 0));
}

#[test]
fn zero_ticks_returns_initial_state() {
    let invocations: Vec<Invocation> = Vec::new();
    let result = run_simulation(&invocations, 0);
    assert!(result.error.is_none());
    assert_eq!(result.final_state.tick, 0);
    assert_eq!(result.final_state.player_position, (0, 0));
}

#[test]
fn spawn_failure_aborts_with_its_message() {
    let invocations = vec![Invocation::SpawnFailed];
    let result = run_simulation(&invocations, 1);
    assert_eq!(result.error, Some("Failed to run the Python script".to_string()));
    assert_eq!(result.final_state.tick, 1);
    assert_eq!(result.final_state.player_position, (0, 0));
}

#[test]
fn stderr_is_fatal_even_with_valid_stdout() {
    let invocations = vec![Invocation::Completed {
        stdout: "(1, 1)\n".to_string(),
        stderr: "DeprecationWarning: old API".to_string(),
    }];
    let result = run_simulation(&invocations, 1);
    assert_eq!(
        result.error,
        Some("Bot execution error: DeprecationWarning: old API".to_string())
    );
    assert_eq!(result.final_state.player_position, (0, 0));
}

#[test]
fn step_applies_a_valid_decision() {
    let mut state = GameState::initial();
    let outcome = engine_step(&mut state, &ok_output(" (7, -2) "));
    assert!(outcome.is_none());
    assert_eq!(state.tick, 1);
    assert_eq!(state.player_position, (7, -2));
}

#[test]
fn step_reports_the_trimmed_offending_text() {
    let mut state = GameState::initial();
    let outcome = engine_step(&mut state, &ok_output("  go north  \n"));
    assert_eq!(outcome, Some("Invalid bot output: go north".to_string()));
    assert_eq!(state.tick, 1);
    assert_eq!(state.player_position, (0, 0));
}

#[test]
fn step_strips_unicode_whitespace_like_the_wire_format() {
    let mut state = GameState::initial();
    let outcome = engine_step(&mut state, &ok_output("\u{000B}(4, 4)\u{3000}\n"));
    assert!(outcome.is_none());
    assert_eq!(state.player_position, (4, 4));

    let outcome = engine_step(&mut state, &ok_output("\u{00A0}banana\u{2028}\n"));
    assert_eq!(outcome, Some("Invalid bot output: banana".to_string()));
}

#[test]
fn default_budget_is_ten_ticks() {
    assert_eq!(DEFAULT_NUM_TICKS, 10);
    let invocations: Vec<Invocation> =
        (0..DEFAULT_NUM_TICKS).map(|_| ok_output("(0, 1)")).collect();
    let result = run_simulation(&invocations, DEFAULT_NUM_TICKS);
    assert!(result.error.is_none());
    assert_eq!(result.final_state.player_position, (0, 10));
}

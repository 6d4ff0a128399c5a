use curseforge::cli_loop::{
    complete, dispatch, Completion, CtrlCState, Dispatch, InputEvent, KeyAction, LineAction,
    Outcome,
};
use curseforge::command::{Command, ParseError};

const TIMEOUT: u64 = 2000;
const INTERVAL: u64 = 100;

fn snapshot(state: &CtrlCState) -> (Option<u64>, bool, bool, bool) {
    (
        state.last_time(),
        state.showing_message(),
        state.command_in_progress(),
        state.interrupt_command(),
    )
}

fn line(text: &str) -> Option<InputEvent> {
    Some(InputEvent::Command(text.to_string()))
}

#[test]
fn new_state_is_idle() {
    let state = CtrlCState::new();
    assert_eq!(snapshot(&state), (None, false, false, false));
    assert_eq!(snapshot(&CtrlCState::default()), (None, false, false, false));
    assert!(!state.prompt_hidden());
}

#[test]
fn blank_line_changes_nothing() {
    for text in ["", "   ", "\t", "\"\"", " \"\" "] {
        let mut state = CtrlCState::new();
        state.key_pressed(10, TIMEOUT);
        let before = snapshot(&state);
        assert!(matches!(dispatch(&mut state, line(text)), Dispatch::Ignore), "{:?}", text);
        assert_eq!(snapshot(&state), before);
    }
}

#[test]
fn command_line_starts_its_command() {
    let mut state = CtrlCState::new();
    match dispatch(&mut state, line("search --filter \"cell\"")) {
        Dispatch::Run(Command::Search { name }) => assert_eq!(name.as_deref(), Some("cell")),
        other => panic!("{:?}", other),
    }
    assert_eq!(snapshot(&state), (None, false, true, false));
    assert!(state.prompt_hidden());
}

#[test]
fn second_command_while_busy_is_dropped() {
    let mut state = CtrlCState::new();
    assert!(matches!(dispatch(&mut state, line("view")), Dispatch::Run(Command::View)));
    let before = snapshot(&state);
    assert!(matches!(dispatch(&mut state, line("init")), Dispatch::Busy));
    assert!(matches!(dispatch(&mut state, line("")), Dispatch::Busy));
    assert_eq!(snapshot(&state), before);
    assert_eq!(complete(&mut state, &Outcome::Continue), Completion::Resume);
    assert!(matches!(dispatch(&mut state, line("init")), Dispatch::Run(Command::Init)));
}

#[test]
fn interrupt_marks_a_running_command_only() {
    let mut state = CtrlCState::new();
    assert!(matches!(dispatch(&mut state, Some(InputEvent::CtrlC)), Dispatch::Ignore));
    assert_eq!(snapshot(&state), (None, false, false, false));
    dispatch(&mut state, line("view"));
    assert!(matches!(dispatch(&mut state, Some(InputEvent::CtrlC)), Dispatch::Interrupt));
    assert_eq!(snapshot(&state), (None, false, true, true));
    assert_eq!(complete(&mut state, &Outcome::Interrupted), Completion::Interrupted);
    assert_eq!(snapshot(&state), (None, false, false, false));
}

#[test]
fn starting_a_command_clears_an_old_request() {
    let mut state = CtrlCState::new();
    state.command_started();
    state.request_interrupt();
    assert!(state.interrupt_command());
    state.command_started();
    assert_eq!(snapshot(&state), (None, false, true, false));
    state.command_finished();
    state.request_interrupt();
    assert_eq!(snapshot(&state), (None, false, false, false));
}

#[test]
fn exit_and_closed_channel_leave_the_loop() {
    for busy in [false, true] {
        let mut state = CtrlCState::new();
        if busy {
            state.command_started();
        }
        let before = snapshot(&state);
        let leave = dispatch(&mut state, Some(InputEvent::Exit));
        assert!(matches!(leave, Dispatch::Goodbye));
        assert!(leave.leaves());
        let closed = dispatch(&mut state, None);
        assert!(matches!(closed, Dispatch::Closed));
        assert!(closed.leaves());
        assert_eq!(snapshot(&state), before);
    }
}

#[test]
fn lines_outside_the_grammar() {
    let mut state = CtrlCState::new();
    assert!(matches!(dispatch(&mut state, line("help")), Dispatch::Help));
    assert!(matches!(dispatch(&mut state, line("quit")), Dispatch::Goodbye));
    assert!(matches!(dispatch(&mut state, line("exit")), Dispatch::Run(Command::Exit)));
    state.command_finished();
    match dispatch(&mut state, line(" help")) {
        Dispatch::Reject(ParseError::UnknownCommand(name)) => assert_eq!(name, "help"),
        other => panic!("{:?}", other),
    }
    match dispatch(&mut state, line("get --ids")) {
        Dispatch::Reject(ParseError::MissingValue(option)) => assert_eq!(option, "--ids"),
        other => panic!("{:?}", other),
    }
    assert!(!dispatch(&mut state, line("bogus")).leaves());
    assert_eq!(snapshot(&state), (None, false, false, false));
}

#[test]
fn completion_resets_the_state_however_the_command_ended() {
    let cases = [
        (Outcome::Continue, Completion::Resume),
        (Outcome::Stop, Completion::Leave),
        (Outcome::Interrupted, Completion::Interrupted),
        (Outcome::Failed("download was interrupted by user".to_string()), Completion::Interrupted),
        (Outcome::Failed("Interrupted".to_string()), Completion::Failed),
        (Outcome::Failed("connection refused".to_string()), Completion::Failed),
        (Outcome::TaskFailed, Completion::TaskFailed),
    ];
    for (outcome, expected) in cases {
        let mut state = CtrlCState::new();
        state.command_started();
        state.request_interrupt();
        assert_eq!(complete(&mut state, &outcome), expected);
        assert_eq!(snapshot(&state), (None, false, false, false));
    }
}

#[test]
fn second_press_within_the_timeout_forces_the_exit() {
    let mut state = CtrlCState::new();
    assert_eq!(state.key_pressed(1_000, TIMEOUT), KeyAction::ShowBanner);
    assert_eq!(snapshot(&state), (Some(1_000), true, false, false));
    assert!(state.prompt_hidden());
    assert_eq!(state.key_pressed(2_999, TIMEOUT), KeyAction::ForceExit);
    assert_eq!(snapshot(&state), (Some(1_000), true, false, false));
}

#[test]
fn second_press_after_the_timeout_shows_the_banner_again() {
    let mut state = CtrlCState::new();
    assert_eq!(state.key_pressed(1_000, TIMEOUT), KeyAction::ShowBanner);
    assert_eq!(state.key_pressed(3_000, TIMEOUT), KeyAction::ShowBanner);
    assert_eq!(snapshot(&state), (Some(3_000), true, false, false));
    assert_eq!(state.key_pressed(4_999, TIMEOUT), KeyAction::ForceExit);
}

#[test]
fn press_while_a_command_runs_is_only_forwarded() {
    let mut state = CtrlCState::new();
    state.command_started();
    assert_eq!(state.key_pressed(5, TIMEOUT), KeyAction::Forward);
    assert_eq!(state.key_pressed(6, TIMEOUT), KeyAction::Forward);
    assert_eq!(snapshot(&state), (None, false, true, false));
}

#[test]
fn clock_running_backwards_counts_as_no_time_passed() {
    let mut state = CtrlCState::new();
    state.key_pressed(1_000, TIMEOUT);
    assert_eq!(state.key_pressed(900, TIMEOUT), KeyAction::ForceExit);
    let mut state = CtrlCState::new();
    state.key_pressed(1_000, 0);
    assert_eq!(state.key_pressed(900, 0), KeyAction::ShowBanner);
}

#[test]
fn line_with_the_banner_showing_is_discarded() {
    let mut state = CtrlCState::new();
    assert_eq!(state.line_entered(), LineAction::Forward);
    state.key_pressed(10, TIMEOUT);
    assert_eq!(state.line_entered(), LineAction::Discard);
    assert_eq!(snapshot(&state), (None, false, false, false));
    assert_eq!(state.line_entered(), LineAction::Forward);
    assert_eq!(state.key_pressed(11, TIMEOUT), KeyAction::ShowBanner);
}

#[test]
fn ticker_clears_a_stale_banner_within_one_interval() {
    let mut state = CtrlCState::new();
    let pressed = 1_234;
    state.key_pressed(pressed, TIMEOUT);
    let mut now = 1_000;
    let mut cleared_at = None;
    while now < pressed + TIMEOUT + 10 * INTERVAL {
        let was_showing = state.showing_message();
        let cleared = state.tick(now, TIMEOUT);
        assert_eq!(cleared, was_showing && now > pressed + TIMEOUT);
        if cleared {
            cleared_at = Some(now);
        }
        now += INTERVAL;
    }
    let cleared_at = cleared_at.unwrap();
    assert!(cleared_at > pressed + TIMEOUT);
    assert!(cleared_at <= pressed + TIMEOUT + INTERVAL);
    assert_eq!(snapshot(&state), (None, false, false, false));
}

#[test]
fn ticker_waits_until_the_timeout_is_exceeded() {
    let mut state = CtrlCState::new();
    state.key_pressed(10, 5);
    assert!(!state.tick(15, 5));
    assert_eq!(snapshot(&state), (Some(10), true, false, false));
    assert_eq!(state.key_pressed(15, 5), KeyAction::ShowBanner);
    assert!(!state.tick(9, 5));
    assert!(state.tick(21, 5));
    let mut state = CtrlCState::new();
    state.key_pressed(10, 0);
    assert!(!state.tick(10, 0));
    assert!(state.tick(11, 0));
}

#[test]
fn ticker_leaves_a_fresh_banner_and_an_idle_state() {
    let mut state = CtrlCState::new();
    assert!(!state.tick(5_000, TIMEOUT));
    state.key_pressed(5_000, TIMEOUT);
    assert!(!state.tick(6_999, TIMEOUT));
    assert!(!state.tick(7_000, TIMEOUT));
    assert_eq!(snapshot(&state), (Some(5_000), true, false, false));
    assert!(state.tick(7_001, TIMEOUT));
    assert_eq!(snapshot(&state), (None, false, false, false));
    assert!(!state.tick(7_100, TIMEOUT));
}

#[test]
fn at_most_one_command_runs_over_a_long_session() {
    let mut state = CtrlCState::new();
    let mut running = 0usize;
    let lines = ["view", "", "init", "bogus", "search -f x", "\"\"", "get -i 1", "help"];
    for round in 0..200u64 {
        let was_busy = state.command_in_progress();
        let action = dispatch(&mut state, line(lines[(round % 8) as usize]));
        if matches!(action, Dispatch::Run(_)) {
            assert!(!was_busy);
            running += 1;
        }
        assert!(running <= 1);
        assert_eq!(state.command_in_progress(), running == 1);
        state.key_pressed(round * 700, TIMEOUT);
        state.tick(round * 700 + 50, TIMEOUT);
        state.line_entered();
        assert_eq!(state.command_in_progress(), running == 1);
        if round % 3 == 2 && running == 1 {
            complete(&mut state, &Outcome::Continue);
            running -= 1;
        }
        state.well_formed_always();
        assert_eq!(state.showing_message(), state.last_time().is_some());
        assert!(!state.interrupt_command() || state.command_in_progress());
    }
}

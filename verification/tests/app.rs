use std::time::Duration;

use watch::app::{
    assemble_frame, rings_bell, visible_output, AppError, ExitState, ExitVerdict, FrameOutcome,
    Next, RunScheduler,
};
use watch::diff::{HIGHLIGHT_END, HIGHLIGHT_START};
use watch::exec::{ExecError, ExecOutput, ExitStatus};
use watch::render::TerminalSize;
use watch::terminal::WaitOutcome;
use watch::{ColorMode, Config, DifferencesMode};

fn config() -> Config {
    Config {
        interval: Duration::from_secs(2),
        precise: false,
        no_title: false,
        no_wrap: false,
        differences: None,
        beep: false,
        errexit: false,
        chgexit: false,
        equexit: None,
        follow: false,
        no_rerun: false,
        exec_directly: false,
        color: ColorMode::Auto,
        shotsdir: None,
        command: vec!["echo".to_string(), "hi".to_string()],
    }
}

fn output(stdout: &str, stderr: &str, code: i32) -> ExecOutput {
    ExecOutput {
        stdout: stdout.as_bytes().to_vec(),
        stderr: stderr.as_bytes().to_vec(),
        status: ExitStatus { success: code == 0, code: Some(code) },
    }
}

fn lines(texts: &[&str]) -> Vec<String> {
    texts.iter().map(|text| text.to_string()).collect()
}

const OK: ExitStatus = ExitStatus { success: true, code: Some(0) };

#[test]
fn change_exit_fires_on_first_change() {
    let mut state = ExitState::new();
    assert_eq!(state.observe("a".to_string(), true, None), ExitVerdict::Continue);
    assert_eq!(state.observe("a".to_string(), true, None), ExitVerdict::Continue);
    assert_eq!(state.observe("b".to_string(), true, None), ExitVerdict::Changed);
}

#[test]
fn stable_exit_fires_after_two_unchanged_frames() {
    let mut state = ExitState::new();
    assert_eq!(state.observe("a".to_string(), false, Some(2)), ExitVerdict::Continue);
    assert_eq!(state.observe("a".to_string(), false, Some(2)), ExitVerdict::Continue);
    assert_eq!(state.unchanged_run_length, 1);
    assert_eq!(state.observe("a".to_string(), false, Some(2)), ExitVerdict::Stable);
    assert_eq!(state.unchanged_run_length, 2);
}

#[test]
fn a_change_resets_the_run_length() {
    let mut state = ExitState::new();
    assert_eq!(state.observe("a".to_string(), false, Some(2)), ExitVerdict::Continue);
    assert_eq!(state.observe("a".to_string(), false, Some(2)), ExitVerdict::Continue);
    assert_eq!(state.observe("b".to_string(), false, Some(2)), ExitVerdict::Continue);
    assert_eq!(state.unchanged_run_length, 0);
    assert_eq!(state.last_visible_text.as_deref(), Some("b"));
    assert_eq!(state.observe("b".to_string(), false, Some(2)), ExitVerdict::Continue);
    assert_eq!(state.observe("b".to_string(), false, Some(2)), ExitVerdict::Stable);
}

#[test]
fn change_comes_before_stability() {
    let mut state = ExitState::new();
    assert_eq!(state.observe("a".to_string(), true, Some(0)), ExitVerdict::Continue);
    assert_eq!(state.observe("b".to_string(), true, Some(0)), ExitVerdict::Changed);
    assert_eq!(state.observe("b".to_string(), true, Some(0)), ExitVerdict::Stable);
}

#[test]
fn a_changed_frame_is_never_stable() {
    let mut state = ExitState::new();
    assert_eq!(state.observe("a".to_string(), false, Some(0)), ExitVerdict::Continue);
    assert_eq!(state.observe("b".to_string(), false, Some(0)), ExitVerdict::Continue);
    assert_eq!(state.observe("b".to_string(), false, Some(0)), ExitVerdict::Stable);
}

#[test]
fn nothing_is_remembered_without_an_exit_condition() {
    let mut state = ExitState::new();
    assert_eq!(state.observe("a".to_string(), false, None), ExitVerdict::Continue);
    assert_eq!(state.observe("b".to_string(), false, None), ExitVerdict::Continue);
    assert_eq!(state, ExitState::new());
}

#[test]
fn the_run_length_stops_at_its_largest_value() {
    let mut state =
        ExitState { last_visible_text: Some("a".to_string()), unchanged_run_length: u32::MAX - 1 };
    assert_eq!(state.observe("a".to_string(), false, Some(u32::MAX)), ExitVerdict::Stable);
    assert_eq!(state.unchanged_run_length, u32::MAX);
    assert_eq!(state.observe("a".to_string(), false, Some(u32::MAX)), ExitVerdict::Stable);
    assert_eq!(state.unchanged_run_length, u32::MAX);
}

#[test]
fn visible_output_leaves_the_header_out() {
    let frame = lines(&["Every 2.0s: echo   12:00", "", "a", "b"]);
    assert_eq!(visible_output(&frame, 2), "a\nb");
    assert_eq!(visible_output(&frame, 0), "Every 2.0s: echo   12:00\n\na\nb");
    assert_eq!(visible_output(&frame, 3), "b");
    assert_eq!(visible_output(&frame, 4), "");
    assert_eq!(visible_output(&frame, 9), "");
    assert_eq!(visible_output(&[], 0), "");
}

#[test]
fn frames_are_cut_to_the_rows_below_the_header() {
    let body = lines(&["a", "b", "c", "d"]);
    assert_eq!(
        assemble_frame(Some("head".to_string()), body.clone(), 4, false),
        lines(&["head", "", "a", "b"])
    );
    assert_eq!(assemble_frame(None, body.clone(), 3, false), lines(&["a", "b", "c"]));
    assert_eq!(assemble_frame(None, body.clone(), 9, false), body);
    assert_eq!(
        assemble_frame(Some("head".to_string()), body.clone(), 1, false),
        lines(&["head", ""])
    );
    assert_eq!(
        assemble_frame(Some("head".to_string()), body.clone(), 1, true),
        lines(&["head", "", "a", "b", "c", "d"])
    );
    assert_eq!(assemble_frame(None, body.clone(), 0, false), lines(&[]));
}

#[test]
fn quitting_ends_the_watch_with_success() {
    let scheduler = RunScheduler::new();
    assert_eq!(scheduler.after_wait(WaitOutcome::Quit), Next::Exit(0));
    assert_eq!(scheduler.after_wait(WaitOutcome::Trigger), Next::Continue);
    assert_eq!(scheduler.after_wait(WaitOutcome::Timeout), Next::Continue);
}

#[test]
fn the_first_run_needs_no_wait() {
    let scheduler = RunScheduler::new();
    assert_eq!(scheduler.wait_before_run(&config(), Duration::ZERO), None);
}

#[test]
fn later_runs_wait_for_the_interval() {
    let mut scheduler = RunScheduler::new();
    scheduler.started = true;
    let mut config = config();
    assert_eq!(
        scheduler.wait_before_run(&config, Duration::from_secs(5)),
        Some(Duration::from_secs(2))
    );
    config.precise = true;
    assert_eq!(
        scheduler.wait_before_run(&config, Duration::from_millis(500)),
        Some(Duration::from_millis(1500))
    );
    assert_eq!(scheduler.wait_before_run(&config, Duration::from_secs(2)), Some(Duration::ZERO));
    assert_eq!(scheduler.wait_before_run(&config, Duration::from_secs(5)), Some(Duration::ZERO));
}

#[test]
fn render_builds_header_and_body() {
    let mut scheduler = RunScheduler::new();
    let size = TerminalSize { columns: 24, rows: 5 };
    let frame = scheduler.render(&config(), &output("one\ntwo\n", "err", 0), size, "2.0", "NOW");
    assert_eq!(frame, lines(&["Every 2.0s: echo hi  NOW", "", "one", "two", "err"]));
    assert!(scheduler.started);
}

#[test]
fn render_highlights_what_is_new() {
    let mut scheduler = RunScheduler::new();
    let mut config = config();
    config.no_title = true;
    config.differences = Some(DifferencesMode::Changes);
    let size = TerminalSize { columns: 80, rows: 24 };
    let first = scheduler.render(&config, &output("abc", "", 0), size, "2.0", "");
    assert_eq!(first, lines(&["abc"]));
    let second = scheduler.render(&config, &output("abXc", "", 0), size, "2.0", "");
    assert_eq!(second, vec![format!("ab{HIGHLIGHT_START}X{HIGHLIGHT_END}c")]);
    let third = scheduler.render(&config, &output("abXc", "", 0), size, "2.0", "");
    assert_eq!(third, lines(&["abXc"]));
}

#[test]
fn render_strips_colour_unless_it_is_always_on() {
    let mut scheduler = RunScheduler::new();
    let mut config = config();
    config.no_title = true;
    let size = TerminalSize { columns: 80, rows: 24 };
    let shown = output("\x1b[31mred\x1b[0m", "", 0);
    let plain = scheduler.render(&config, &shown, size, "2.0", "");
    assert_eq!(plain, lines(&["red"]));
    config.color = ColorMode::Always;
    let coloured = scheduler.render(&config, &shown, size, "2.0", "");
    assert_eq!(coloured, lines(&["\x1b[31mred\x1b[0m"]));
}

#[test]
fn a_failed_command_ends_the_watch_when_asked() {
    let mut scheduler = RunScheduler::new();
    let mut config = config();
    config.errexit = true;
    config.chgexit = true;
    let failed = ExitStatus { success: false, code: Some(3) };
    assert_eq!(
        scheduler.conclude(&config, failed, &lines(&["h", "", "a"])),
        FrameOutcome { save_screenshot: false, next: Next::ExitAfterKeypress(3) }
    );
    assert_eq!(scheduler.exit, ExitState::new());
    let killed = ExitStatus { success: false, code: None };
    assert_eq!(
        scheduler.conclude(&config, killed, &lines(&["h", "", "a"])).next,
        Next::ExitAfterKeypress(1)
    );
    assert_eq!(scheduler.conclude(&config, OK, &lines(&["h", "", "a"])).next, Next::Continue);
}

#[test]
fn the_clock_alone_is_no_change() {
    let mut scheduler = RunScheduler::new();
    let mut config = config();
    config.chgexit = true;
    assert_eq!(scheduler.conclude(&config, OK, &lines(&["12:00", "", "a"])).next, Next::Continue);
    assert_eq!(scheduler.conclude(&config, OK, &lines(&["12:01", "", "a"])).next, Next::Continue);
    assert_eq!(scheduler.conclude(&config, OK, &lines(&["12:02", "", "b"])).next, Next::Exit(0));
}

#[test]
fn stable_frames_end_the_watch_when_asked() {
    let mut scheduler = RunScheduler::new();
    let mut config = config();
    config.no_title = true;
    config.equexit = Some(2);
    assert_eq!(scheduler.conclude(&config, OK, &lines(&["a"])).next, Next::Continue);
    assert_eq!(scheduler.conclude(&config, OK, &lines(&["a"])).next, Next::Continue);
    assert_eq!(scheduler.conclude(&config, OK, &lines(&["a"])).next, Next::Exit(0));
}

#[test]
fn a_screenshot_is_taken_once_per_request() {
    let mut scheduler = RunScheduler::new();
    let mut config = config();
    scheduler.pending_screenshot = true;
    assert!(!scheduler.conclude(&config, OK, &lines(&["a"])).save_screenshot);
    assert!(!scheduler.pending_screenshot);
    config.shotsdir = Some("shots".into());
    scheduler.pending_screenshot = true;
    assert!(scheduler.conclude(&config, OK, &lines(&["a"])).save_screenshot);
    assert!(!scheduler.pending_screenshot);
    assert!(!scheduler.conclude(&config, OK, &lines(&["a"])).save_screenshot);
}

#[test]
fn the_bell_rings_for_failures_only() {
    let mut config = config();
    let failed = ExitStatus { success: false, code: Some(1) };
    assert!(!rings_bell(&config, failed));
    config.beep = true;
    assert!(rings_bell(&config, failed));
    assert!(!rings_bell(&config, OK));
}

#[test]
fn errors_read_as_words() {
    let io = AppError::from(std::io::Error::new(std::io::ErrorKind::Other, "disk full"));
    assert_eq!(io.message(), "io error: disk full");
    let exec = AppError::from(ExecError::MissingCommand);
    assert_eq!(exec.message(), "missing command");
    assert!(matches!(exec, AppError::Exec(ExecError::MissingCommand)));
}

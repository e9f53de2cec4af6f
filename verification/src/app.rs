//! One iteration of the watcher after another: what to wait for, what to
//! draw, and when to stop.

use std::time::Duration;
use vstd::prelude::*;
use vstd::string::StringExecFns;
use vstd::utf8::{decode_utf8, valid_utf8};

use crate::config::{ColorMode, Config};
use crate::diff::{display_text, next_captures, Captures, DiffState};
use crate::exec::{error_text, ExecError, ExecOutput, ExitStatus};
use crate::interval::{duration_nanos, duration_of_nanos};
use crate::render::{
    decode_output, format_text, header_line_with_time, header_text, layout, shown_text,
    title_text, TerminalSize,
};
use crate::terminal::WaitOutcome;
use crate::text::{join, joined, texts_of};

verus! {

/// `std::io::Error`, carried through as it is.
#[verifier::external_type_specification]
#[verifier::external_body]
pub struct ExIoError(std::io::Error);

/// Why the watcher gave up.
#[derive(Debug)]
pub enum AppError {
    /// The terminal or the file system failed.
    Io(std::io::Error),
    /// The command could not be run.
    Exec(ExecError),
}

impl From<std::io::Error> for AppError {
    fn from(err: std::io::Error) -> (error: AppError) {
        AppError::Io(err)
    }
}

impl vstd::std_specs::convert::FromSpecImpl<std::io::Error> for AppError {
    open spec fn obeys_from_spec() -> bool {
        true
    }

    open spec fn from_spec(err: std::io::Error) -> AppError {
        AppError::Io(err)
    }
}

impl From<ExecError> for AppError {
    fn from(err: ExecError) -> (error: AppError) {
        AppError::Exec(err)
    }
}

impl vstd::std_specs::convert::FromSpecImpl<ExecError> for AppError {
    open spec fn obeys_from_spec() -> bool {
        true
    }

    open spec fn from_spec(err: ExecError) -> AppError {
        AppError::Exec(err)
    }
}

/// The `Display` text of a `std::io::Error`. Trusted to return; what the
/// text says is up to the system.
#[verifier::external_body]
fn io_error_text(err: &std::io::Error) -> (text: String) {
    format!("{err}")
}

impl AppError {
    /// The error in words: a failure of the system behind `io error: `, a
    /// failure to run the command as that error reads.
    pub fn message(&self) -> (out: String)
        ensures
            match *self {
                AppError::Io(_) => "io error: "@.is_prefix_of(out@),
                AppError::Exec(err) => out@ == error_text(err),
            },
    {
        match self {
            AppError::Io(err) => {
                let mut out = "io error: ".to_owned();
                let reason = io_error_text(err);
                out.append(reason.as_str());
                assert(out@.subrange(0, "io error: "@.len() as int) == "io error: "@);
                out
            },
            AppError::Exec(err) => err.message(),
        }
    }
}

/// The text of a frame below its first `header_lines` lines, the lines
/// joined by newlines.
pub open spec fn visible_text(frame: Seq<Seq<char>>, header_lines: nat) -> Seq<char> {
    if header_lines >= frame.len() {
        Seq::empty()
    } else {
        joined(frame.skip(header_lines as int), "\n"@)
    }
}

/// What a frame shows below the header: the part that counts when frames
/// are compared, so that the clock in the header never makes a difference.
pub fn visible_output(frame: &[String], header_lines: usize) -> (out: String)
    ensures
        out@ == visible_text(texts_of(frame@), header_lines as nat),
{
    if header_lines >= frame.len() {
        return String::new();
    }
    let body = vstd::slice::slice_subrange(frame, header_lines, frame.len());
    assert(texts_of(body@) == texts_of(frame@).skip(header_lines as int));
    join(body, "\n")
}

/// The lines of a frame: the header line and a blank line where there is a
/// header, then the body, cut to the rows that the header leaves unless the
/// output is followed.
pub open spec fn frame_lines(
    header: Option<Seq<char>>,
    body: Seq<Seq<char>>,
    rows: nat,
    follow: bool,
) -> Seq<Seq<char>> {
    let room = match header {
        Some(_) => if rows >= 2 {
            (rows - 2) as nat
        } else {
            0
        },
        None => rows,
    };
    let shown = if follow || body.len() <= room {
        body
    } else {
        body.take(room as int)
    };
    match header {
        Some(line) => seq![line, Seq::empty()] + shown,
        None => shown,
    }
}

/// Puts a frame together from the header line, if there is one, and the
/// laid-out body, for a terminal with `rows` rows.
pub fn assemble_frame(header: Option<String>, body: Vec<String>, rows: u16, follow: bool) -> (frame:
    Vec<String>)
    ensures
        texts_of(frame@) == frame_lines(
            match header {
                Some(line) => Some(line@),
                None => None,
            },
            texts_of(body@),
            rows as nat,
            follow,
        ),
{
    let mut body = body;
    let ghost whole = texts_of(body@);
    let header_lines: u16 = if header.is_some() {
        2
    } else {
        0
    };
    if !follow {
        let room: u16 = if rows >= header_lines {
            rows - header_lines
        } else {
            0
        };
        body.truncate(room as usize);
        assert(whole.len() > room ==> texts_of(body@) == whole.take(room as int));
    }
    let mut frame: Vec<String> = Vec::new();
    match header {
        Some(line) => {
            frame.push(line);
            frame.push(String::new());
            assert(texts_of(frame@) == seq![line@, Seq::<char>::empty()]);
        },
        None => {},
    }
    let ghost head = texts_of(frame@);
    let ghost shown = texts_of(body@);
    frame.append(&mut body);
    assert(texts_of(frame@) == head + shown);
    frame
}

/// What the exit conditions remember from one frame to the next.
#[derive(Debug, Clone, PartialEq, Eq)]
pub struct ExitState {
    /// What the last frame showed below the header, once a frame was seen.
    pub last_visible_text: Option<String>,
    /// How many frames in a row showed the same as the one before.
    pub unchanged_run_length: u32,
}

/// What the exit conditions remember, as mathematical values.
pub struct ExitMemory {
    pub last_visible_text: Option<Seq<char>>,
    pub unchanged_run_length: nat,
}

impl View for ExitState {
    type V = ExitMemory;

    open spec fn view(&self) -> ExitMemory {
        ExitMemory {
            last_visible_text: match self.last_visible_text {
                Some(text) => Some(text@),
                None => None,
            },
            unchanged_run_length: self.unchanged_run_length as nat,
        }
    }
}

/// What the exit conditions say about a frame.
#[derive(Debug, Clone, Copy, PartialEq, Eq, Structural)]
pub enum ExitVerdict {
    /// Go on watching.
    Continue,
    /// The frame differs from the one before, and a change ends the watch.
    Changed,
    /// The frames have stayed the same for as long as was asked.
    Stable,
}

/// The memory before any frame was seen.
pub open spec fn no_frames() -> ExitMemory {
    ExitMemory { last_visible_text: None, unchanged_run_length: 0 }
}

/// The run length after one more unchanged frame; it stops counting at the
/// largest number it can hold.
pub open spec fn one_more(run_length: nat) -> nat {
    if run_length < u32::MAX {
        run_length + 1
    } else {
        run_length
    }
}

/// The memory after a frame that shows `visible`. Without an exit condition
/// nothing is remembered.
pub open spec fn exit_memory_after(
    memory: ExitMemory,
    visible: Seq<char>,
    chgexit: bool,
    equexit: Option<u32>,
) -> ExitMemory {
    if !chgexit && equexit is None {
        memory
    } else {
        ExitMemory {
            last_visible_text: Some(visible),
            unchanged_run_length: match memory.last_visible_text {
                None => memory.unchanged_run_length,
                Some(last) => if last == visible {
                    one_more(memory.unchanged_run_length)
                } else {
                    0
                },
            },
        }
    }
}

/// What the exit conditions say about a frame that shows `visible`. The
/// first frame never ends the watch. A frame that differs from the last
/// ends it where a change is to end it; one that equals the last ends it
/// where a run length is asked for and reached.
pub open spec fn exit_verdict(
    memory: ExitMemory,
    visible: Seq<char>,
    chgexit: bool,
    equexit: Option<u32>,
) -> ExitVerdict {
    match memory.last_visible_text {
        None => ExitVerdict::Continue,
        Some(last) => if last != visible {
            if chgexit {
                ExitVerdict::Changed
            } else {
                ExitVerdict::Continue
            }
        } else if equexit is Some && one_more(memory.unchanged_run_length) >= equexit->0 {
            ExitVerdict::Stable
        } else {
            ExitVerdict::Continue
        },
    }
}

/// The memory after a series of frames, oldest first, starting from
/// `memory`.
pub open spec fn memory_after_frames(
    memory: ExitMemory,
    frames: Seq<Seq<char>>,
    chgexit: bool,
    equexit: Option<u32>,
) -> ExitMemory
    decreases frames.len(),
{
    if frames.len() == 0 {
        memory
    } else {
        exit_memory_after(
            memory_after_frames(memory, frames.drop_last(), chgexit, equexit),
            frames.last(),
            chgexit,
            equexit,
        )
    }
}

impl ExitState {
    /// The memory before any frame was seen.
    pub fn new() -> (state: ExitState)
        ensures
            state@ == no_frames(),
    {
        ExitState { last_visible_text: None, unchanged_run_length: 0 }
    }

    /// Takes in what a frame shows below the header and says whether the
    /// watch ends with it.
    pub fn observe(&mut self, visible: String, chgexit: bool, equexit: Option<u32>) -> (verdict:
        ExitVerdict)
        ensures
            final(self)@ == exit_memory_after(old(self)@, visible@, chgexit, equexit),
            verdict == if !chgexit && equexit is None {
                ExitVerdict::Continue
            } else {
                exit_verdict(old(self)@, visible@, chgexit, equexit)
            },
            old(self)@.last_visible_text is None ==> verdict == ExitVerdict::Continue,
    {
        if !chgexit && equexit.is_none() {
            return ExitVerdict::Continue;
        }
        let same = match &self.last_visible_text {
            Some(last) => Some(*last == visible),
            None => None,
        };
        self.last_visible_text = Some(visible);
        match same {
            None => ExitVerdict::Continue,
            Some(false) => {
                self.unchanged_run_length = 0;
                if chgexit {
                    ExitVerdict::Changed
                } else {
                    ExitVerdict::Continue
                }
            },
            Some(true) => {
                if self.unchanged_run_length < u32::MAX {
                    self.unchanged_run_length = self.unchanged_run_length + 1;
                }
                match equexit {
                    Some(limit) => if self.unchanged_run_length >= limit {
                        ExitVerdict::Stable
                    } else {
                        ExitVerdict::Continue
                    },
                    None => ExitVerdict::Continue,
                }
            },
        }
    }
}

/// The first frame never ends the watch: there is nothing to compare it
/// with.
pub proof fn law_first_frame_never_ends(visible: Seq<char>, chgexit: bool, equexit: Option<u32>)
    ensures
        exit_verdict(no_frames(), visible, chgexit, equexit) == ExitVerdict::Continue,
{
}

/// Where a change is to end the watch, a frame ends it as changed exactly
/// when it differs from the frame before, whatever came earlier.
pub proof fn law_change_ends_the_watch(
    memory: ExitMemory,
    previous: Seq<char>,
    current: Seq<char>,
    equexit: Option<u32>,
)
    ensures
        exit_verdict(exit_memory_after(memory, previous, true, equexit), current, true, equexit)
            == ExitVerdict::Changed <==> previous != current,
{
}

/// `count` frames that all show the same.
pub open spec fn same_frames(frame: Seq<char>, count: nat) -> Seq<Seq<char>> {
    Seq::new(count, |i: int| frame)
}

/// After a first frame and `repeats` more that show the same, the run
/// length is `repeats`, and one more such frame ends the watch as stable
/// exactly when that makes the run as long as asked.
pub proof fn law_stable_run_ends_the_watch(
    frame: Seq<char>,
    repeats: nat,
    chgexit: bool,
    limit: u32,
)
    requires
        repeats < u32::MAX,
    ensures
        memory_after_frames(
            no_frames(),
            same_frames(frame, repeats + 1),
            chgexit,
            Some(limit),
        ) == (ExitMemory { last_visible_text: Some(frame), unchanged_run_length: repeats }),
        exit_verdict(
            memory_after_frames(no_frames(), same_frames(frame, repeats + 1), chgexit, Some(limit)),
            frame,
            chgexit,
            Some(limit),
        ) == ExitVerdict::Stable <==> repeats + 1 >= limit,
    decreases repeats,
{
    let frames = same_frames(frame, repeats + 1);
    let before = memory_after_frames(no_frames(), frames.drop_last(), chgexit, Some(limit));
    assert(frames.drop_last() == same_frames(frame, repeats));
    assert(frames.last() == frame);
    if repeats > 0 {
        law_stable_run_ends_the_watch(frame, (repeats - 1) as nat, chgexit, limit);
        assert(before.last_visible_text == Some(frame));
    } else {
        assert(before == no_frames());
    }
    assert(memory_after_frames(no_frames(), frames, chgexit, Some(limit)) == exit_memory_after(
        before,
        frame,
        chgexit,
        Some(limit),
    ));
}

/// How the watch goes on after a frame.
#[derive(Debug, Clone, Copy, PartialEq, Eq, Structural)]
pub enum Next {
    /// Go on with the watch.
    Continue,
    /// Wait for one key press, then leave with this exit code.
    ExitAfterKeypress(i32),
    /// Leave with this exit code.
    Exit(i32),
}

/// What is to be done with a frame that was drawn.
#[derive(Debug, Clone, Copy, PartialEq, Eq, Structural)]
pub struct FrameOutcome {
    /// Whether the frame is to be saved as a screenshot.
    pub save_screenshot: bool,
    /// How the watch goes on.
    pub next: Next,
}

/// What the watcher carries from one iteration to the next.
#[derive(Debug, Clone)]
pub struct RunScheduler {
    /// The captures that difference highlighting compares against.
    pub diff: DiffState,
    /// What the exit conditions remember.
    pub exit: ExitState,
    /// Whether a screenshot was asked for and not yet taken.
    pub pending_screenshot: bool,
    /// Whether the command has run at least once.
    pub started: bool,
}

/// How long to wait before a run, in nanoseconds: not at all before the
/// first run; afterwards the interval, which precise timing counts from the
/// start of the last run, so that a slow command shortens the wait down to
/// nothing.
pub open spec fn wait_nanos(started: bool, precise: bool, interval: nat, since_run_started: nat)
    -> Option<nat> {
    if !started {
        None
    } else if !precise {
        Some(interval)
    } else if since_run_started >= interval {
        Some(0)
    } else {
        Some((interval - since_run_started) as nat)
    }
}

/// The header line that a configuration asks for, if it asks for one.
pub open spec fn header_of(
    config: Config,
    interval: Seq<char>,
    clock: Seq<char>,
    columns: u16,
) -> Option<Seq<char>> {
    if config.no_title {
        None
    } else {
        Some(header_text(title_text(texts_of(config.command@), interval), clock, columns as nat))
    }
}

/// The frame for a run that shows `text`, given the captures that the
/// differences mode compares against.
pub open spec fn frame_for(
    config: Config,
    captures: Captures,
    text: Seq<char>,
    interval: Seq<char>,
    clock: Seq<char>,
    size: TerminalSize,
) -> Seq<Seq<char>> {
    frame_lines(
        header_of(config, interval, clock, size.columns),
        layout(
            display_text(captures, text, config.differences),
            size.columns as nat,
            config.no_wrap,
        ),
        size.rows as nat,
        config.follow,
    )
}

/// The number of lines that the header takes in a frame.
pub open spec fn header_lines_of(config: Config) -> nat {
    if config.no_title {
        0
    } else {
        2
    }
}

/// The exit code when a failed command ends the watch: the command's own,
/// or 1 where it has none.
pub open spec fn failure_code(status: ExitStatus) -> i32 {
    match status.code {
        Some(code) => code,
        None => 1,
    }
}

/// How the watch goes on when the exit conditions give `verdict`.
pub open spec fn next_after(verdict: ExitVerdict) -> Next {
    match verdict {
        ExitVerdict::Continue => Next::Continue,
        _ => Next::Exit(0),
    }
}

/// Whether the bell rings for a run: only where it is asked for and the
/// command failed.
pub fn rings_bell(config: &Config, status: ExitStatus) -> (yes: bool)
    ensures
        yes == (config.beep && !status.success),
{
    config.beep && !status.success
}

impl RunScheduler {
    /// The state before the first run.
    pub fn new() -> (scheduler: RunScheduler)
        ensures
            scheduler.diff@ == crate::diff::no_captures(),
            scheduler.exit@ == no_frames(),
            !scheduler.pending_screenshot,
            !scheduler.started,
    {
        RunScheduler {
            diff: DiffState::new(),
            exit: ExitState::new(),
            pending_screenshot: false,
            started: false,
        }
    }

    /// Decides how long to wait before the next run, given the time since
    /// the last run started. `None` says to run at once, without a wait in
    /// which a key could be pressed.
    pub fn wait_before_run(&self, config: &Config, since_run_started: Duration) -> (wait: Option<
        Duration,
    >)
        ensures
            match wait_nanos(
                self.started,
                config.precise,
                duration_nanos(config.interval),
                duration_nanos(since_run_started),
            ) {
                Some(nanos) => wait is Some && duration_nanos(wait->0) == nanos,
                None => wait is None,
            },
    {
        if !self.started {
            return None;
        }
        if !config.precise {
            return Some(config.interval);
        }
        let interval: u128 = config.interval.as_nanos();
        let elapsed: u128 = since_run_started.as_nanos();
        if elapsed >= interval {
            Some(duration_of_nanos(0))
        } else {
            Some(duration_of_nanos(interval - elapsed))
        }
    }

    /// Decides what follows a wait: the user's wish to leave ends the watch
    /// with success; a key, a resize or the end of the wait runs the command.
    pub fn after_wait(&self, outcome: WaitOutcome) -> (next: Next)
        ensures
            next == match outcome {
                WaitOutcome::Quit => Next::Exit(0),
                WaitOutcome::Trigger => Next::Continue,
                WaitOutcome::Timeout => Next::Continue,
            },
    {
        match outcome {
            WaitOutcome::Quit => Next::Exit(0),
            WaitOutcome::Trigger => Next::Continue,
            WaitOutcome::Timeout => Next::Continue,
        }
    }

    /// Builds the frame for the output of a run: decodes it, highlights what
    /// is new as the differences mode says, lays it out for the terminal and
    /// puts the header above it. `interval` and `clock` are the interval in
    /// seconds and the current time as the header is to show them.
    pub fn render(
        &mut self,
        config: &Config,
        output: &ExecOutput,
        size: TerminalSize,
        interval: &str,
        clock: &str,
    ) -> (frame: Vec<String>)
        ensures
            texts_of(frame@) == frame_for(
                *config,
                old(self).diff@,
                shown_text(output.stdout@ + output.stderr@, config.color),
                interval@,
                clock@,
                size,
            ),
            final(self).diff@ == next_captures(
                old(self).diff@,
                shown_text(output.stdout@ + output.stderr@, config.color),
                config.differences,
            ),
            config.color == ColorMode::Always && valid_utf8(output.stdout@ + output.stderr@) ==> {
                &&& texts_of(frame@) == frame_for(
                    *config,
                    old(self).diff@,
                    decode_utf8(output.stdout@ + output.stderr@),
                    interval@,
                    clock@,
                    size,
                )
                &&& final(self).diff@ == next_captures(
                    old(self).diff@,
                    decode_utf8(output.stdout@ + output.stderr@),
                    config.differences,
                )
            },
            final(self).started,
            final(self).exit == old(self).exit,
            final(self).pending_screenshot == old(self).pending_screenshot,
    {
        self.started = true;
        let raw = output.combined();
        let text = decode_output(raw.as_slice(), config.color);
        let shown = self.diff.apply(text.as_str(), config.differences);
        let body = format_text(shown.text.as_str(), size.columns, config.no_wrap);
        let header = if config.no_title {
            None
        } else {
            Some(
                header_line_with_time(
                    config.command.as_slice(),
                    interval,
                    clock,
                    size.columns,
                ),
            )
        };
        assemble_frame(header, body, size.rows, config.follow)
    }

    /// Decides what follows a frame that was drawn: whether it is saved as a
    /// screenshot, and whether the watch goes on. A failed command ends the
    /// watch where that is asked for, before the exit conditions are looked
    /// at; these compare what the frame shows below the header.
    pub fn conclude(&mut self, config: &Config, status: ExitStatus, frame: &[String]) -> (outcome:
        FrameOutcome)
        ensures
            outcome.save_screenshot == (old(self).pending_screenshot && config.shotsdir is Some),
            !final(self).pending_screenshot,
            final(self).diff == old(self).diff,
            final(self).started == old(self).started,
            config.errexit && !status.success ==> outcome.next == Next::ExitAfterKeypress(
                failure_code(status),
            ) && final(self).exit == old(self).exit,
            !(config.errexit && !status.success) ==> final(self).exit@ == exit_memory_after(
                old(self).exit@,
                visible_text(texts_of(frame@), header_lines_of(*config)),
                config.chgexit,
                config.equexit,
            ) && outcome.next == next_after(
                if !config.chgexit && config.equexit is None {
                    ExitVerdict::Continue
                } else {
                    exit_verdict(
                        old(self).exit@,
                        visible_text(texts_of(frame@), header_lines_of(*config)),
                        config.chgexit,
                        config.equexit,
                    )
                },
            ),
    {
        let save_screenshot = self.pending_screenshot && config.shotsdir.is_some();
        self.pending_screenshot = false;
        if config.errexit && !status.success {
            let code: i32 = match status.code {
                Some(code) => code,
                None => 1,
            };
            return FrameOutcome { save_screenshot, next: Next::ExitAfterKeypress(code) };
        }
        if !config.chgexit && config.equexit.is_none() {
            return FrameOutcome { save_screenshot, next: Next::Continue };
        }
        let header_lines: usize = if config.no_title {
            0
        } else {
            2
        };
        let visible = visible_output(frame, header_lines);
        let next = match self.exit.observe(visible, config.chgexit, config.equexit) {
            ExitVerdict::Continue => Next::Continue,
            ExitVerdict::Changed => Next::Exit(0),
            ExitVerdict::Stable => Next::Exit(0),
        };
        FrameOutcome { save_screenshot, next }
    }
}

} // verus!

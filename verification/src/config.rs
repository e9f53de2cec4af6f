//! Resolved run configuration.

use std::path::PathBuf;
use std::time::Duration;
use vstd::prelude::*;

use crate::cli::Cli;
use crate::interval::{
    default_interval, duration_nanos, parse_interval, parsed_interval, IntervalParseError,
    DEFAULT_INTERVAL_NANOS,
};

verus! {

/// What the highlighted text is compared against.
#[derive(Debug, Clone, Copy, PartialEq, Eq, Structural)]
pub enum DifferencesMode {
    /// Highlight what was inserted since the previous capture.
    Changes,
    /// Highlight what was inserted since the first capture.
    Permanent,
}

/// Whether escape sequences in the command's output are kept.
#[derive(Debug, Clone, Copy, PartialEq, Eq, Structural)]
pub enum ColorMode {
    Auto,
    Always,
    Never,
}

/// Everything a run of the watcher is told.
#[derive(Debug, Clone, PartialEq, Eq)]
pub struct Config {
    pub interval: Duration,
    pub precise: bool,
    pub no_title: bool,
    pub no_wrap: bool,
    pub differences: Option<DifferencesMode>,
    pub beep: bool,
    pub errexit: bool,
    pub chgexit: bool,
    pub equexit: Option<u32>,
    pub follow: bool,
    pub no_rerun: bool,
    pub exec_directly: bool,
    pub color: ColorMode,
    pub shotsdir: Option<PathBuf>,
    pub command: Vec<String>,
}

/// The text that decides the interval: the option where it is given, else
/// the setting from the environment.
pub open spec fn interval_source(option: Option<String>, setting: Option<&str>) -> Option<
    Seq<char>,
> {
    match option {
        Some(text) => Some(text@),
        None => match setting {
            Some(text) => Some(text@),
            None => None,
        },
    }
}

/// The interval in nanoseconds that a source gives; two seconds without one.
pub open spec fn resolved_interval(source: Option<Seq<char>>) -> Result<nat, IntervalParseError> {
    match source {
        Some(text) => parsed_interval(text),
        None => Ok(DEFAULT_INTERVAL_NANOS as nat),
    }
}

/// The colour mode that the two colour flags ask for; both at once ask for
/// nothing that can be done.
pub open spec fn color_choice(color: bool, no_color: bool) -> Option<ColorMode> {
    if color && no_color {
        None
    } else if color {
        Some(ColorMode::Always)
    } else if no_color {
        Some(ColorMode::Never)
    } else {
        Some(ColorMode::Auto)
    }
}

/// The differences mode: the one that the option names, else changes where
/// the plain flag is given.
pub open spec fn differences_choice(
    named: Option<DifferencesMode>,
    flag: bool,
) -> Option<DifferencesMode> {
    if named is Some {
        named
    } else if flag {
        Some(DifferencesMode::Changes)
    } else {
        None
    }
}

/// What an interval that cannot be read is reported as.
pub open spec fn interval_error_text(error: IntervalParseError) -> Seq<char> {
    match error {
        IntervalParseError::Empty => "interval is empty"@,
        IntervalParseError::NotANumber => "interval is not a number"@,
    }
}

/// Whether `config` is what the command line `cli` resolves to with an
/// interval of `nanos` nanoseconds and the colour mode `color`.
pub open spec fn resolves_to(config: Config, cli: Cli, nanos: nat, color: ColorMode) -> bool {
    &&& duration_nanos(config.interval) == nanos
    &&& config.precise == cli.precise
    &&& config.no_title == cli.no_title
    &&& config.no_wrap == cli.no_wrap
    &&& config.differences == differences_choice(cli.differences, cli.differences_flag)
    &&& config.beep == cli.beep
    &&& config.errexit == cli.errexit
    &&& config.chgexit == cli.chgexit
    &&& config.equexit == cli.equexit
    &&& config.follow == cli.follow
    &&& config.no_rerun == cli.no_rerun
    &&& config.exec_directly == cli.exec_directly
    &&& config.color == color
    &&& config.shotsdir == cli.shotsdir
    &&& config.command == cli.command
}

impl Config {
    /// Resolves the command line into a configuration. `interval_setting` is
    /// the interval that the environment names, if it names one. An interval
    /// that cannot be read is refused first, then both colour flags at once.
    pub fn from_cli(cli: Cli, interval_setting: Option<&str>) -> (result: Result<Config, String>)
        ensures
            match resolved_interval(interval_source(cli.interval, interval_setting)) {
                Err(error) => result is Err && result->Err_0@ == interval_error_text(error),
                Ok(nanos) => match color_choice(cli.color, cli.no_color) {
                    None => result is Err && result->Err_0@
                        == "options --color and --no-color are mutually exclusive"@,
                    Some(color) => result is Ok && resolves_to(result->Ok_0, cli, nanos, color),
                },
            },
    {
        let parsed = match &cli.interval {
            Some(text) => parse_interval(text.as_str()),
            None => match interval_setting {
                Some(text) => parse_interval(text),
                None => Ok(default_interval()),
            },
        };
        let interval = match parsed {
            Ok(interval) => interval,
            Err(error) => {
                return Err(error.message());
            },
        };
        let color = if cli.color && cli.no_color {
            return Err("options --color and --no-color are mutually exclusive".to_owned());
        } else if cli.color {
            ColorMode::Always
        } else if cli.no_color {
            ColorMode::Never
        } else {
            ColorMode::Auto
        };
        let differences = if cli.differences.is_some() {
            cli.differences
        } else if cli.differences_flag {
            Some(DifferencesMode::Changes)
        } else {
            None
        };
        Ok(
            Config {
                interval,
                precise: cli.precise,
                no_title: cli.no_title,
                no_wrap: cli.no_wrap,
                differences,
                beep: cli.beep,
                errexit: cli.errexit,
                chgexit: cli.chgexit,
                equexit: cli.equexit,
                follow: cli.follow,
                no_rerun: cli.no_rerun,
                exec_directly: cli.exec_directly,
                color,
                shotsdir: cli.shotsdir,
                command: cli.command,
            },
        )
    }
}

} // verus!

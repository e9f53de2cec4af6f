//! The command line, before it is resolved into a configuration.

use std::path::PathBuf;
use vstd::prelude::*;

use crate::config::DifferencesMode;
use crate::text::{
    chars_of, copy_range, has_prefix, push_range, same_ignoring_case, spells_ignoring_case,
    texts_of, trim_bounds, trimmed,
};

verus! {

/// `std::path::PathBuf`, carried through as it is.
#[verifier::external_type_specification]
#[verifier::external_body]
pub struct ExPathBuf(PathBuf);

/// The options and the command as given on the command line.
#[derive(Debug, Clone, PartialEq, Eq)]
pub struct Cli {
    pub beep: bool,
    pub color: bool,
    pub no_color: bool,
    pub differences_flag: bool,
    pub differences: Option<DifferencesMode>,
    pub errexit: bool,
    pub follow: bool,
    pub chgexit: bool,
    pub interval: Option<String>,
    pub precise: bool,
    pub equexit: Option<u32>,
    pub no_rerun: bool,
    pub shotsdir: Option<PathBuf>,
    pub no_title: bool,
    pub no_wrap: bool,
    pub exec_directly: bool,
    pub command: Vec<String>,
}

/// The mode that the value of the differences option names: nothing or
/// `changes` for changes, `permanent` or `1` for permanent, white space
/// around the value and the case of letters aside.
pub open spec fn differences_of(value: Seq<char>) -> Option<DifferencesMode> {
    let name = trimmed(value);
    if name.len() == 0 || same_ignoring_case(name, "changes"@) {
        Some(DifferencesMode::Changes)
    } else if same_ignoring_case(name, "permanent"@) || name == "1"@ {
        Some(DifferencesMode::Permanent)
    } else {
        None
    }
}

/// Reads the value of the differences option.
pub fn parse_differences(value: &str) -> (result: Result<DifferencesMode, String>)
    ensures
        match differences_of(value@) {
            Some(mode) => result == Ok::<DifferencesMode, String>(mode),
            None => result is Err && result->Err_0@ == "expected 'permanent' or '1'"@,
        },
{
    let chars = chars_of(value);
    let (start, end) = trim_bounds(chars.as_slice());
    let ghost name = chars@.subrange(start as int, end as int);
    if start == end || spells_ignoring_case(chars.as_slice(), start, end, "changes") {
        return Ok(DifferencesMode::Changes);
    }
    let mut rest: Vec<char> = Vec::new();
    copy_range(&mut rest, chars.as_slice(), start, end);
    assert(rest@ == name);
    let is_one = rest.len() == 1 && has_prefix(rest.as_slice(), "1");
    proof {
        reveal_strlit("1");
        assert(name == trimmed(value@));
        if name.len() == 1 {
            assert(name.subrange(0, 1) == name);
        }
    }
    if spells_ignoring_case(chars.as_slice(), start, end, "permanent") || is_one {
        Ok(DifferencesMode::Permanent)
    } else {
        Err("expected 'permanent' or '1'".to_owned())
    }
}

/// One argument in the form that the option parser takes: `-d=VALUE` and
/// `-dVALUE` become `--differences=VALUE`; `-d` alone and everything else
/// stay.
pub open spec fn normalized_arg(arg: Seq<char>) -> Seq<char> {
    if arg == "-d"@ {
        arg
    } else if "-d="@.is_prefix_of(arg) {
        "--differences="@ + arg.skip("-d="@.len() as int)
    } else if "-d"@.is_prefix_of(arg) {
        "--differences="@ + arg.skip("-d"@.len() as int)
    } else {
        arg
    }
}

/// The arguments in the form that the option parser takes: the first, the
/// program's name, as it is, each other one normalized.
pub open spec fn normalized_args(args: Seq<Seq<char>>) -> Seq<Seq<char>> {
    Seq::new(
        args.len(),
        |i: int|
            if i == 0 {
                args[i]
            } else {
                normalized_arg(args[i])
            },
    )
}

/// Rewrites one argument for the option parser.
pub fn normalize_arg(arg: &str) -> (out: String)
    ensures
        out@ == normalized_arg(arg@),
{
    let chars = chars_of(arg);
    let short = has_prefix(chars.as_slice(), "-d");
    proof {
        reveal_strlit("-d");
        reveal_strlit("-d=");
        if short && chars.len() == 2 {
            assert(chars@.subrange(0, 2) == chars@);
        }
    }
    if !short || chars.len() == 2 {
        return arg.to_owned();
    }
    let from: usize = if has_prefix(chars.as_slice(), "-d=") {
        3
    } else {
        2
    };
    let mut out = "--differences=".to_owned();
    push_range(&mut out, chars.as_slice(), from, chars.len());
    assert(chars@.subrange(from as int, chars.len() as int) == chars@.skip(from as int));
    out
}

/// Rewrites the arguments for the option parser.
pub fn normalize_args(args: &[String]) -> (out: Vec<String>)
    ensures
        texts_of(out@) == normalized_args(texts_of(args@)),
{
    let mut out: Vec<String> = Vec::new();
    let mut i: usize = 0;
    while i < args.len()
        invariant
            i <= args.len(),
            texts_of(out@) == normalized_args(texts_of(args@)).take(i as int),
        decreases args.len() - i,
    {
        let ghost before = texts_of(out@);
        if i == 0 {
            out.push(args[i].clone());
        } else {
            out.push(normalize_arg(args[i].as_str()));
        }
        i += 1;
        assert(texts_of(out@) =~= before.push(out@.last()@));
        assert(normalized_args(texts_of(args@)).take(i as int) =~= normalized_args(
            texts_of(args@),
        ).take(i - 1).push(normalized_args(texts_of(args@))[i - 1]));
    }
    assert(normalized_args(texts_of(args@)).take(args.len() as int) == normalized_args(
        texts_of(args@),
    ));
    out
}

} // verus!

//! What is run and what came back: the command line for one run, and the
//! output of a finished run.

use vstd::prelude::*;
use vstd::string::StringExecFns;

use crate::text::{chars_of, join, joined, texts_of, trim_bounds, trimmed};

verus! {

/// The program that runs a command line, and the arguments before it.
#[derive(Debug, Clone, PartialEq, Eq)]
pub struct Shell {
    pub program: String,
    pub args: Vec<String>,
}

/// How a finished run ended.
#[derive(Debug, Clone, Copy, PartialEq, Eq, Structural)]
pub struct ExitStatus {
    /// Whether the command reported success.
    pub success: bool,
    /// The command's exit code, where it has one.
    pub code: Option<i32>,
}

/// What a finished run produced.
#[derive(Debug, Clone, PartialEq, Eq)]
pub struct ExecOutput {
    pub stdout: Vec<u8>,
    pub stderr: Vec<u8>,
    pub status: ExitStatus,
}

/// Why a command could not be run.
#[derive(Debug, Clone, PartialEq, Eq)]
pub enum ExecError {
    /// There is no command.
    MissingCommand,
    /// No shell can be named to run the command.
    ShellNotFound,
    /// The system refused to start the command, with its reason.
    SpawnFailed(String),
}

/// The program to start and its arguments.
#[derive(Debug, Clone, PartialEq, Eq)]
pub struct CommandLine {
    pub program: String,
    pub args: Vec<String>,
}

/// What the environment says about shells.
#[derive(Debug, Clone, PartialEq, Eq)]
pub struct ShellEnv {
    /// The user's shell, where the environment names one.
    pub shell: Option<String>,
    /// The command interpreter, where the environment names one.
    pub comspec: Option<String>,
    /// Whether the system is Windows.
    pub windows: bool,
}

impl ExecOutput {
    /// Everything the run wrote: standard output first, then standard error.
    pub fn combined(&self) -> (out: Vec<u8>)
        ensures
            out@ == self.stdout@ + self.stderr@,
    {
        let mut out: Vec<u8> = Vec::new();
        out.extend_from_slice(self.stdout.as_slice());
        out.extend_from_slice(self.stderr.as_slice());
        out
    }
}

/// What an error reads as.
pub open spec fn error_text(error: ExecError) -> Seq<char> {
    match error {
        ExecError::MissingCommand => "missing command"@,
        ExecError::ShellNotFound => "shell not found"@,
        ExecError::SpawnFailed(reason) => "failed to run command: "@ + reason@,
    }
}

impl ExecError {
    /// The error in words.
    pub fn message(&self) -> (out: String)
        ensures
            out@ == error_text(*self),
    {
        match self {
            ExecError::MissingCommand => "missing command".to_owned(),
            ExecError::ShellNotFound => "shell not found".to_owned(),
            ExecError::SpawnFailed(reason) => {
                let mut out = "failed to run command: ".to_owned();
                out.append(reason.as_str());
                out
            },
        }
    }
}

/// A text of white space only, the empty text included.
pub open spec fn is_blank(text: Seq<char>) -> bool {
    trimmed(text).len() == 0
}

/// Whether a text holds white space only.
pub fn blank(text: &str) -> (yes: bool)
    ensures
        yes == is_blank(text@),
{
    let chars = chars_of(text);
    let (start, end) = trim_bounds(chars.as_slice());
    start == end
}

/// A setting that is there and is not blank.
pub open spec fn is_set(value: Option<String>) -> bool {
    value is Some && !is_blank(value->0@)
}

/// The shell for a command line, as program and leading arguments. On
/// Windows: the user's shell with `-c` where one is set, else the command
/// interpreter with `/C` where one is set, else `cmd.exe` with `/C`.
/// Elsewhere: the user's shell, `/bin/sh` where none is named, with `-c`;
/// a blank name leaves no shell.
pub open spec fn shell_choice(env: ShellEnv) -> Option<(Seq<char>, Seq<char>)> {
    if env.windows {
        if is_set(env.shell) {
            Some((env.shell->0@, "-c"@))
        } else if is_set(env.comspec) {
            Some((env.comspec->0@, "/C"@))
        } else {
            Some(("cmd.exe"@, "/C"@))
        }
    } else {
        match env.shell {
            Some(shell) => if is_blank(shell@) {
                None
            } else {
                Some((shell@, "-c"@))
            },
            None => Some(("/bin/sh"@, "-c"@)),
        }
    }
}

fn shell_with(program: String, flag: &str) -> (shell: Shell)
    ensures
        shell.program@ == program@,
        texts_of(shell.args@) == seq![flag@],
{
    let mut args: Vec<String> = Vec::new();
    args.push(flag.to_owned());
    assert(texts_of(args@) == seq![flag@]);
    Shell { program, args }
}

/// Chooses the shell that runs command lines.
pub fn default_shell(env: &ShellEnv) -> (result: Result<Shell, ExecError>)
    ensures
        match shell_choice(*env) {
            Some(choice) => result is Ok && result->Ok_0.program@ == choice.0 && texts_of(
                result->Ok_0.args@,
            ) == seq![choice.1],
            None => result == Err::<Shell, ExecError>(ExecError::ShellNotFound),
        },
{
    if env.windows {
        if let Some(shell) = &env.shell {
            if !blank(shell.as_str()) {
                return Ok(shell_with(shell.clone(), "-c"));
            }
        }
        if let Some(comspec) = &env.comspec {
            if !blank(comspec.as_str()) {
                return Ok(shell_with(comspec.clone(), "/C"));
            }
        }
        Ok(shell_with("cmd.exe".to_owned(), "/C"))
    } else {
        match &env.shell {
            Some(shell) => {
                if blank(shell.as_str()) {
                    Err(ExecError::ShellNotFound)
                } else {
                    Ok(shell_with(shell.clone(), "-c"))
                }
            },
            None => Ok(shell_with("/bin/sh".to_owned(), "-c")),
        }
    }
}

/// The command line for one run: the command itself when it is to be run
/// directly, else the shell, its flag, and the command's words joined by
/// single spaces as one argument.
pub open spec fn command_line(command: Seq<Seq<char>>, exec: bool, env: ShellEnv) -> Result<
    (Seq<char>, Seq<Seq<char>>),
    ExecError,
> {
    if command.len() == 0 {
        Err(ExecError::MissingCommand)
    } else if exec {
        Ok((command[0], command.skip(1)))
    } else {
        match shell_choice(env) {
            Some(choice) => Ok((choice.0, seq![choice.1, joined(command, " "@)])),
            None => Err(ExecError::ShellNotFound),
        }
    }
}

/// Builds the command line for one run.
pub fn build_command(command: &[String], exec: bool, env: &ShellEnv) -> (result: Result<
    CommandLine,
    ExecError,
>)
    ensures
        match command_line(texts_of(command@), exec, *env) {
            Ok(line) => result is Ok && result->Ok_0.program@ == line.0 && texts_of(
                result->Ok_0.args@,
            ) == line.1,
            Err(error) => result == Err::<CommandLine, ExecError>(error),
        },
{
    if command.len() == 0 {
        return Err(ExecError::MissingCommand);
    }
    if exec {
        let mut args: Vec<String> = Vec::new();
        let mut i: usize = 1;
        while i < command.len()
            invariant
                1 <= i <= command.len(),
                texts_of(args@) == texts_of(command@).subrange(1, i as int),
            decreases command.len() - i,
        {
            let ghost before = texts_of(args@);
            args.push(command[i].clone());
            i += 1;
            assert(texts_of(args@) =~= before.push(command@[i - 1]@));
            assert(texts_of(command@).subrange(1, i as int) =~= texts_of(command@).subrange(
                1,
                i - 1,
            ).push(command@[i - 1]@));
        }
        assert(texts_of(command@).subrange(1, command.len() as int) == texts_of(command@).skip(1));
        return Ok(CommandLine { program: command[0].clone(), args });
    }
    match default_shell(env) {
        Ok(shell) => {
            let Shell { program, mut args } = shell;
            let ghost flag = texts_of(args@);
            args.push(join(command, " "));
            assert(texts_of(args@) == flag.push(joined(texts_of(command@), " "@)));
            Ok(CommandLine { program, args })
        },
        Err(error) => Err(error),
    }
}

} // verus!

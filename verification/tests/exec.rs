use watch::exec::{
    blank, build_command, default_shell, ExecError, ExecOutput, ExitStatus, ShellEnv,
};

fn unix(shell: Option<&str>) -> ShellEnv {
    ShellEnv { shell: shell.map(str::to_string), comspec: None, windows: false }
}

fn windows(shell: Option<&str>, comspec: Option<&str>) -> ShellEnv {
    ShellEnv {
        shell: shell.map(str::to_string),
        comspec: comspec.map(str::to_string),
        windows: true,
    }
}

#[test]
fn build_exec_command_uses_first_arg_as_program() {
    let cmd = build_command(&["echo".into(), "hi".into()], true, &unix(None)).unwrap();
    assert_eq!(cmd.program, "echo");
}

#[test]
fn default_shell_prefers_comspec_when_shell_unset() {
    let shell = default_shell(&windows(None, Some("cmd.exe"))).unwrap();
    let program = shell.program.to_ascii_lowercase();
    assert!(program.ends_with("cmd.exe"));
}

#[test]
fn exec_command_passes_the_other_words_as_arguments() {
    let cmd = build_command(&["ls".into(), "-l".into(), "a b".into()], true, &unix(None)).unwrap();
    assert_eq!(cmd.program, "ls");
    assert_eq!(cmd.args, vec!["-l", "a b"]);
    let alone = build_command(&["ls".into()], true, &unix(Some(" "))).unwrap();
    assert_eq!(alone.program, "ls");
    assert!(alone.args.is_empty());
}

#[test]
fn shell_command_joins_the_words() {
    let cmd = build_command(&["ls".into(), "-l".into()], false, &unix(Some("/bin/zsh"))).unwrap();
    assert_eq!(cmd.program, "/bin/zsh");
    assert_eq!(cmd.args, vec!["-c", "ls -l"]);
    let cmd = build_command(&["dir".into()], false, &windows(None, None)).unwrap();
    assert_eq!(cmd.program, "cmd.exe");
    assert_eq!(cmd.args, vec!["/C", "dir"]);
}

#[test]
fn an_empty_command_is_missing() {
    assert_eq!(build_command(&[], true, &unix(None)).unwrap_err(), ExecError::MissingCommand);
    assert_eq!(build_command(&[], false, &unix(Some(""))).unwrap_err(), ExecError::MissingCommand);
}

#[test]
fn a_blank_shell_is_no_shell() {
    assert_eq!(default_shell(&unix(Some(""))).unwrap_err(), ExecError::ShellNotFound);
    assert_eq!(default_shell(&unix(Some(" \t"))).unwrap_err(), ExecError::ShellNotFound);
    assert_eq!(
        build_command(&["ls".into()], false, &unix(Some("  "))).unwrap_err(),
        ExecError::ShellNotFound
    );
}

#[test]
fn the_default_shell_follows_the_environment() {
    let shell = default_shell(&unix(None)).unwrap();
    assert_eq!(shell.program, "/bin/sh");
    assert_eq!(shell.args, vec!["-c"]);
    let shell = default_shell(&unix(Some("/bin/bash"))).unwrap();
    assert_eq!(shell.program, "/bin/bash");
    assert_eq!(shell.args, vec!["-c"]);
    let shell = default_shell(&windows(Some("bash"), Some("cmd.exe"))).unwrap();
    assert_eq!(shell.program, "bash");
    assert_eq!(shell.args, vec!["-c"]);
    let shell = default_shell(&windows(Some(" "), Some("command.com"))).unwrap();
    assert_eq!(shell.program, "command.com");
    assert_eq!(shell.args, vec!["/C"]);
    let shell = default_shell(&windows(Some(""), Some(" "))).unwrap();
    assert_eq!(shell.program, "cmd.exe");
    assert_eq!(shell.args, vec!["/C"]);
}

#[test]
fn combined_output_puts_stdout_first() {
    let output = ExecOutput {
        stdout: b"out".to_vec(),
        stderr: b"err".to_vec(),
        status: ExitStatus { success: true, code: Some(0) },
    };
    assert_eq!(output.combined(), b"outerr".to_vec());
}

#[test]
fn exec_errors_read_as_words() {
    assert_eq!(ExecError::MissingCommand.message(), "missing command");
    assert_eq!(ExecError::ShellNotFound.message(), "shell not found");
    assert_eq!(
        ExecError::SpawnFailed("no such file".to_string()).message(),
        "failed to run command: no such file"
    );
}

#[test]
fn blank_texts_hold_white_space_only() {
    assert!(blank(""));
    assert!(blank(" \t\r\n\u{a0}\u{3000}"));
    assert!(!blank(" x "));
    assert!(!blank("\u{200b}"));
}

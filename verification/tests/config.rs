use std::time::Duration;

use watch::cli::{normalize_arg, normalize_args, parse_differences, Cli};
use watch::interval::default_interval;
use watch::{ColorMode, Config, DifferencesMode};

fn cli(command: &[&str]) -> Cli {
    Cli {
        beep: false,
        color: false,
        no_color: false,
        differences_flag: false,
        differences: None,
        errexit: false,
        follow: false,
        chgexit: false,
        interval: None,
        precise: false,
        equexit: None,
        no_rerun: false,
        shotsdir: None,
        no_title: false,
        no_wrap: false,
        exec_directly: false,
        command: command.iter().map(|word| word.to_string()).collect(),
    }
}

#[test]
fn config_uses_default_interval_without_flag_or_env() {
    let cli = cli(&["echo", "hi"]);
    let config = Config::from_cli(cli, None).unwrap();
    assert_eq!(config.interval, default_interval());
}

#[test]
fn config_uses_watch_interval_env() {
    let cli = cli(&["echo", "hi"]);
    let config = Config::from_cli(cli, Some("0.5")).unwrap();
    assert_eq!(config.interval, Duration::from_secs_f64(0.5));
}

#[test]
fn config_rejects_both_color_flags() {
    let mut cli = cli(&["echo", "hi"]);
    cli.color = true;
    cli.no_color = true;
    let err = Config::from_cli(cli, None).unwrap_err();
    assert!(err.contains("mutually exclusive"));
}

#[test]
fn config_prefers_the_option_over_the_environment() {
    let mut cli = cli(&["echo"]);
    cli.interval = Some("3".to_string());
    let config = Config::from_cli(cli, Some("0.5")).unwrap();
    assert_eq!(config.interval, Duration::from_secs(3));
}

#[test]
fn config_reports_an_interval_that_cannot_be_read() {
    let mut bad = cli(&["echo"]);
    bad.interval = Some("soon".to_string());
    bad.color = true;
    bad.no_color = true;
    assert_eq!(Config::from_cli(bad, None).unwrap_err(), "interval is not a number");
    assert_eq!(Config::from_cli(cli(&["echo"]), Some(" ")).unwrap_err(), "interval is empty");
    let mut good = cli(&["echo"]);
    good.interval = Some("1".to_string());
    assert!(Config::from_cli(good, Some("soon")).is_ok());
}

#[test]
fn config_takes_the_flags_over() {
    let mut cli = cli(&["echo", "hi"]);
    cli.beep = true;
    cli.errexit = true;
    cli.equexit = Some(3);
    cli.exec_directly = true;
    cli.no_wrap = true;
    cli.shotsdir = Some("shots".into());
    cli.differences_flag = true;
    cli.no_color = true;
    let config = Config::from_cli(cli, None).unwrap();
    assert!(config.beep && config.errexit && config.exec_directly && config.no_wrap);
    assert!(!config.precise && !config.no_title && !config.chgexit && !config.follow);
    assert!(!config.no_rerun);
    assert_eq!(config.equexit, Some(3));
    assert_eq!(config.shotsdir, Some("shots".into()));
    assert_eq!(config.differences, Some(DifferencesMode::Changes));
    assert_eq!(config.color, ColorMode::Never);
    assert_eq!(config.command, vec!["echo", "hi"]);
}

#[test]
fn config_resolves_colour_and_differences() {
    let mut coloured = cli(&["echo"]);
    coloured.color = true;
    coloured.differences = Some(DifferencesMode::Permanent);
    coloured.differences_flag = true;
    let config = Config::from_cli(coloured, None).unwrap();
    assert_eq!(config.color, ColorMode::Always);
    assert_eq!(config.differences, Some(DifferencesMode::Permanent));
    let plain = Config::from_cli(cli(&["echo"]), None).unwrap();
    assert_eq!(plain.color, ColorMode::Auto);
    assert_eq!(plain.differences, None);
}

#[test]
fn differences_values_are_read() {
    assert_eq!(parse_differences(""), Ok(DifferencesMode::Changes));
    assert_eq!(parse_differences("  "), Ok(DifferencesMode::Changes));
    assert_eq!(parse_differences("changes"), Ok(DifferencesMode::Changes));
    assert_eq!(parse_differences(" Changes "), Ok(DifferencesMode::Changes));
    assert_eq!(parse_differences("permanent"), Ok(DifferencesMode::Permanent));
    assert_eq!(parse_differences("PERMANENT"), Ok(DifferencesMode::Permanent));
    assert_eq!(parse_differences("1"), Ok(DifferencesMode::Permanent));
    assert_eq!(parse_differences(" 1 "), Ok(DifferencesMode::Permanent));
    assert_eq!(parse_differences("2"), Err("expected 'permanent' or '1'".to_string()));
    assert_eq!(parse_differences("perm"), Err("expected 'permanent' or '1'".to_string()));
    assert_eq!(parse_differences("11"), Err("expected 'permanent' or '1'".to_string()));
}

#[test]
fn short_differences_options_are_rewritten() {
    assert_eq!(normalize_arg("-d"), "-d");
    assert_eq!(normalize_arg("-d=permanent"), "--differences=permanent");
    assert_eq!(normalize_arg("-d1"), "--differences=1");
    assert_eq!(normalize_arg("-d="), "--differences=");
    assert_eq!(normalize_arg("--differences=1"), "--differences=1");
    assert_eq!(normalize_arg("-x"), "-x");
    assert_eq!(normalize_arg(""), "");
    assert_eq!(normalize_arg("d"), "d");
}

#[test]
fn the_program_name_is_never_rewritten() {
    let args: Vec<String> =
        ["-d1", "-d=permanent", "echo", "-d1", "-d"].iter().map(|arg| arg.to_string()).collect();
    assert_eq!(
        normalize_args(&args),
        vec!["-d1", "--differences=permanent", "echo", "--differences=1", "-d"]
    );
    assert!(normalize_args(&[]).is_empty());
}

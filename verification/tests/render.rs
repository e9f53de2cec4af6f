use std::time::Duration;

use watch::render::{
    compose_header, consume_escape_sequence, format_output, format_text, header_line_with_time,
    parse_dimension, split_lines, strip_ansi_text, terminal_size, title, truncate_to_width,
    TerminalSize,
};
use watch::ColorMode;

#[test]
fn header_right_aligns_time() {
    let interval = format!("{:.1}", Duration::from_secs(2).as_secs_f64());
    let line = header_line_with_time(&["echo".into()], &interval, "TIME", 20);
    assert_eq!(line.len(), 20);
    assert!(line.ends_with("TIME"));
}

#[test]
fn format_output_wraps_lines() {
    let lines = format_output(b"abcdef", 3, false, ColorMode::Never);
    assert_eq!(lines, vec!["abc", "def"]);
}

#[test]
fn format_output_truncates_lines() {
    let lines = format_output(b"abcdef", 3, true, ColorMode::Never);
    assert_eq!(lines, vec!["abc"]);
}

#[test]
fn header_holds_interval_and_command() {
    let line = header_line_with_time(&["echo".into()], "2.0", "TIME", 20);
    assert_eq!(line, "Every 2.0s: ech TIME");
    let line = header_line_with_time(&["echo".into()], "2.0", "TIME", 21);
    assert_eq!(line, "Every 2.0s: echo TIME");
    let line = header_line_with_time(&["ls".into(), "-l".into()], "0.5", "NOW", 30);
    assert_eq!(line, "Every 0.5s: ls -l          NOW");
    let line = header_line_with_time(&["echo".into()], "0.3", "TIME", 40);
    assert_eq!(line, "Every 0.3s: echo                    TIME");
}

#[test]
fn header_drops_the_clock_when_there_is_no_room() {
    assert_eq!(compose_header("Every 2.0s: echo", "TIME", 5), "Every");
    assert_eq!(compose_header("Every 2.0s: echo", "TIME", 4), "Ever");
    assert_eq!(compose_header("abc", "TIME", 0), "");
}

#[test]
fn header_cuts_the_title_to_make_room_for_the_clock() {
    assert_eq!(compose_header("Every 2.0s: echo", "TIME", 10), "Every TIME");
    assert_eq!(compose_header("Every 2.0s: echo", "TIME", 6), "E TIME");
}

#[test]
fn header_counts_wide_characters_twice() {
    let line = compose_header("ab", "日本", 10);
    assert_eq!(line, "ab    日本");
}

#[test]
fn title_holds_interval_and_command() {
    assert_eq!(title(&["x".into()], "0.1"), "Every 0.1s: x");
    assert_eq!(title(&["ls".into(), "-l".into()], "2678400.0"), "Every 2678400.0s: ls -l");
    assert_eq!(title(&[], "1.0"), "Every 1.0s: ");
    assert_eq!(title(&["x".into()], ""), "Every s: x");
}

#[test]
fn truncation_keeps_escape_sequences_whole() {
    assert_eq!(truncate_to_width("\x1b[31mabc", 2), "\x1b[31mab");
    assert_eq!(truncate_to_width("ab\x1b[31mc", 2), "ab\x1b[31m");
    assert_eq!(truncate_to_width("abc", 0), "");
    assert_eq!(truncate_to_width("日本語", 5), "日本");
}

#[test]
fn layout_ends_lines_at_newlines() {
    assert_eq!(format_text("a\nb", 10, false), vec!["a", "b"]);
    assert_eq!(format_text("a\r\nb\r\n", 10, false), vec!["a", "b", ""]);
    assert_eq!(format_text("", 10, false), vec![""]);
    assert_eq!(format_text("\n", 10, true), vec!["", ""]);
}

#[test]
fn layout_truncation_drops_the_rest_of_the_line() {
    assert_eq!(format_text("abcdef\nxy", 3, true), vec!["abc", "xy"]);
    assert_eq!(format_text("ab日c", 3, true), vec!["ab"]);
}

#[test]
fn layout_treats_width_zero_as_one() {
    assert_eq!(format_text("abc", 0, false), vec!["a", "b", "c"]);
    assert_eq!(split_lines("abc", 0, true), vec!["a"]);
}

#[test]
fn layout_wraps_wide_characters() {
    assert_eq!(format_text("日本語", 4, false), vec!["日本", "語"]);
    assert_eq!(format_text("a日本", 4, false), vec!["a日", "本"]);
}

#[test]
fn layout_lets_width_zero_characters_stay_on_the_line() {
    assert_eq!(format_text("abc\u{301}d", 3, false), vec!["abc\u{301}", "d"]);
}

#[test]
fn escape_sequences_take_no_columns() {
    let width = 4usize;
    let plain = "abcdefghi";
    assert_eq!(plain.len(), width + 5);
    let text = format!("\x1b[31m{plain}");
    let lines = split_lines(&text, width, false);
    assert_eq!(lines.len(), (width + 5 + width - 1) / width);
    assert_eq!(lines, vec!["\x1b[31mabcd", "efgh", "i"]);
}

#[test]
fn escape_sequences_survive_truncation() {
    assert_eq!(format_text("\x1b[1mabcdef\x1b[0m", 3, true), vec!["\x1b[1mabc\x1b[0m"]);
}

#[test]
fn escape_sequence_ends_are_found() {
    let text: Vec<char> = "ab\x1b[1;31mcd\x1bZ\x1b[12".chars().collect();
    assert_eq!(consume_escape_sequence(&text, 2), 9);
    assert_eq!(consume_escape_sequence(&text, 11), 12);
    assert_eq!(consume_escape_sequence(&text, 13), text.len());
    assert_eq!(consume_escape_sequence(&text, text.len()), text.len());
    assert_eq!(consume_escape_sequence(&text, 0), 1);
}

#[test]
fn stripping_takes_colour_out() {
    assert_eq!(strip_ansi_text("\x1b[32mfoo\x1b[m bar"), "foo bar");
    assert_eq!(format_output(b"\x1b[31mred\x1b[0m", 80, false, ColorMode::Never), vec!["red"]);
    assert_eq!(format_output(b"\x1b[31mred\x1b[0m", 80, false, ColorMode::Auto), vec!["red"]);
    assert_eq!(
        format_output(b"\x1b[31mred\x1b[0m", 80, false, ColorMode::Always),
        vec!["\x1b[31mred\x1b[0m"]
    );
}

#[test]
fn malformed_bytes_become_replacement_characters() {
    assert_eq!(format_output(&[0xff, b'a'], 80, false, ColorMode::Always), vec!["\u{fffd}a"]);
    assert_eq!(format_output("日本".as_bytes(), 80, false, ColorMode::Always), vec!["日本"]);
}

#[test]
fn dimensions_are_read_from_settings() {
    assert_eq!(parse_dimension("80"), Some(80));
    assert_eq!(parse_dimension(" 132 "), Some(132));
    assert_eq!(parse_dimension("+7"), Some(7));
    assert_eq!(parse_dimension("007"), Some(7));
    assert_eq!(parse_dimension("65535"), Some(65535));
    assert_eq!(parse_dimension("65536"), None);
    assert_eq!(parse_dimension("0"), None);
    assert_eq!(parse_dimension(""), None);
    assert_eq!(parse_dimension("+"), None);
    assert_eq!(parse_dimension("-1"), None);
    assert_eq!(parse_dimension("8 0"), None);
    assert_eq!(parse_dimension("99999999999999999999999999999999999999999999"), None);
}

#[test]
fn terminal_size_prefers_settings() {
    assert_eq!(terminal_size(None, None, None), TerminalSize { columns: 80, rows: 24 });
    assert_eq!(
        terminal_size(Some("100"), None, Some((120, 40))),
        TerminalSize { columns: 100, rows: 40 }
    );
    assert_eq!(
        terminal_size(Some("x"), Some("50"), Some((120, 40))),
        TerminalSize { columns: 120, rows: 50 }
    );
    assert_eq!(terminal_size(None, None, Some((0, 0))), TerminalSize { columns: 1, rows: 1 });
    assert_eq!(terminal_size(Some("0"), None, None), TerminalSize { columns: 80, rows: 24 });
}

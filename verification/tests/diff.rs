use watch::diff::{
    highlight_diff, render_changes, ChangeTag, DiffChange, DiffState, HIGHLIGHT_END,
    HIGHLIGHT_START,
};
use watch::DifferencesMode;

#[test]
fn highlight_marks_inserted_chars() {
    let out = highlight_diff("abc", "abXc");
    assert!(out.contains(HIGHLIGHT_START));
    assert!(out.contains("X"));
    assert!(out.contains(HIGHLIGHT_END));
}

#[test]
fn diff_state_tracks_changes() {
    let mut state = DiffState::new();
    let first = state.apply("a", Some(DifferencesMode::Changes));
    assert!(!first.changed);
    let second = state.apply("b", Some(DifferencesMode::Changes));
    assert!(second.changed);
}

#[test]
fn cumulative_mode_uses_baseline() {
    let mut state = DiffState::new();
    let _ = state.apply("abc", Some(DifferencesMode::Permanent));
    let out = state.apply("abXc", Some(DifferencesMode::Permanent));
    assert!(out.text.contains("X"));
    assert!(out.text.contains(HIGHLIGHT_START));
}

#[test]
fn highlight_of_a_text_against_itself_adds_nothing() {
    for text in ["", "a", "abc", "line one\nline two\n", "日本語"] {
        assert_eq!(highlight_diff(text, text), text);
    }
}

#[test]
fn highlight_wraps_each_inserted_character() {
    assert_eq!(highlight_diff("abc", "abXc"), format!("ab{HIGHLIGHT_START}X{HIGHLIGHT_END}c"));
    assert_eq!(highlight_diff("", "a"), format!("{HIGHLIGHT_START}a{HIGHLIGHT_END}"));
}

#[test]
fn highlight_wraps_a_run_of_insertions_once() {
    assert_eq!(highlight_diff("", "ab"), format!("{HIGHLIGHT_START}ab{HIGHLIGHT_END}"));
    assert_eq!(
        highlight_diff("ac", "aXYcZ"),
        format!("a{HIGHLIGHT_START}XY{HIGHLIGHT_END}c{HIGHLIGHT_START}Z{HIGHLIGHT_END}")
    );
    let run = vec![
        DiffChange { tag: ChangeTag::Insert, value: "a".to_string() },
        DiffChange { tag: ChangeTag::Insert, value: "b".to_string() },
        DiffChange { tag: ChangeTag::Delete, value: "x".to_string() },
        DiffChange { tag: ChangeTag::Insert, value: "c".to_string() },
        DiffChange { tag: ChangeTag::Equal, value: "d".to_string() },
        DiffChange { tag: ChangeTag::Insert, value: "e".to_string() },
    ];
    assert_eq!(render_changes(&run), "\x1b[7mab\x1b[0m\x1b[7mc\x1b[0md\x1b[7me\x1b[0m");
}

#[test]
fn highlight_drops_what_was_deleted() {
    assert_eq!(highlight_diff("abc", "ac"), "ac");
    assert_eq!(highlight_diff("abc", ""), "");
}

#[test]
fn highlight_shows_the_current_text() {
    for (base, current) in [("kitten", "sitting"), ("10:00:01", "10:00:02"), ("a\nb", "b\na")] {
        let shown = highlight_diff(base, current);
        assert_eq!(shown.replace(HIGHLIGHT_START, "").replace(HIGHLIGHT_END, ""), current);
    }
}

#[test]
fn render_changes_walks_the_alignment() {
    let changes = vec![
        DiffChange { tag: ChangeTag::Equal, value: "a".to_string() },
        DiffChange { tag: ChangeTag::Delete, value: "b".to_string() },
        DiffChange { tag: ChangeTag::Insert, value: "cd".to_string() },
        DiffChange { tag: ChangeTag::Equal, value: "e".to_string() },
    ];
    assert_eq!(render_changes(&changes), "a\x1b[7mcd\x1b[0me");
    assert_eq!(render_changes(&Vec::new()), "");
}

#[test]
fn first_capture_is_never_changed() {
    for mode in [None, Some(DifferencesMode::Changes), Some(DifferencesMode::Permanent)] {
        let mut state = DiffState::new();
        let first = state.apply("anything", mode);
        assert!(!first.changed);
        assert_eq!(first.text, "anything");
    }
}

#[test]
fn changed_follows_the_previous_capture_in_every_mode() {
    for mode in [None, Some(DifferencesMode::Changes), Some(DifferencesMode::Permanent)] {
        let mut state = DiffState::new();
        assert!(!state.apply("a", mode).changed);
        assert!(!state.apply("a", mode).changed);
        assert!(state.apply("b", mode).changed);
        assert!(state.apply("a", mode).changed);
    }
}

#[test]
fn permanent_baseline_stays_the_first_capture() {
    let mut state = DiffState::new();
    let _ = state.apply("abc", Some(DifferencesMode::Permanent));
    let _ = state.apply("xyz", Some(DifferencesMode::Changes));
    let _ = state.apply("abXc", None);
    let back = state.apply("abc", Some(DifferencesMode::Permanent));
    assert_eq!(back.text, "abc");
    assert!(back.changed);
    let out = state.apply("abcZ", Some(DifferencesMode::Permanent));
    assert_eq!(out.text, format!("abc{HIGHLIGHT_START}Z{HIGHLIGHT_END}"));
}

#[test]
fn changes_mode_compares_against_the_previous_capture() {
    let mut state = DiffState::new();
    let _ = state.apply("abc", Some(DifferencesMode::Changes));
    let second = state.apply("abcd", Some(DifferencesMode::Changes));
    assert_eq!(second.text, format!("abc{HIGHLIGHT_START}d{HIGHLIGHT_END}"));
    let third = state.apply("abcd", Some(DifferencesMode::Changes));
    assert_eq!(third.text, "abcd");
    assert!(!third.changed);
}

#[test]
fn without_a_mode_the_text_is_shown_as_it_is() {
    let mut state = DiffState::new();
    let _ = state.apply("abc", None);
    let second = state.apply("abXc", None);
    assert_eq!(second.text, "abXc");
    assert!(second.changed);
}

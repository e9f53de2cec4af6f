//! Line layout: from text that may carry escape sequences to display lines
//! that fit the terminal.

use vstd::prelude::*;
use vstd::string::StringExecFns;
use vstd::utf8::{
    decode_utf8, encode_utf8, encode_utf8_decode_utf8, encode_utf8_valid_utf8,
    is_ascii_chars_encode_utf8, valid_utf8,
};

use crate::config::ColorMode;
use crate::layout_laws::{first_chunk, law_single_column_layout, plain_header, plain_layout};
use crate::text::{
    all_digits, capped_value, chars_of, digits_value, is_digit, is_printable_ascii, join, joined,
    lemma_digits_end, lemma_joined_printable, push_range, push_spaces, scan_digits, spaces,
    texts_of, trim_bounds, trimmed,
};

verus! {

/// The character that opens an escape sequence.
pub const ESCAPE: char = '\x1b';

/// The columns that the width tables assign to a character on its own, or
/// `None` for a control character.
pub uninterp spec fn char_width(c: char) -> Option<usize>;

/// `unicode_width::UnicodeWidthChar::width`. Trusted: the result is a function
/// of the character alone; no character is wider than three columns; the
/// printable ASCII characters, from the space to the tilde, take one column;
/// the control characters, below U+0020 and from U+007F up to U+00A0, have
/// no width.
#[verifier::external_body]
fn unicode_char_width(c: char) -> (width: Option<usize>)
    ensures
        width == char_width(c),
        width is Some ==> width->0 <= 3,
        ' ' <= c <= '~' ==> width == Some(1usize),
        is_control(c) ==> width is None,
{
    unicode_width::UnicodeWidthChar::width(c)
}

/// The control characters of the first two blocks of Unicode.
pub open spec fn is_control(c: char) -> bool {
    c < ' ' || ('\x7f' <= c && c < '\u{a0}')
}

/// The columns a character takes on screen; a control character takes none.
pub open spec fn columns_of(c: char) -> nat {
    match char_width(c) {
        Some(width) => width as nat,
        None => 0,
    }
}

/// The columns a character takes on screen; a control character takes none.
pub fn display_columns(c: char) -> (columns: usize)
    ensures
        columns == columns_of(c),
        columns <= 3,
        ' ' <= c <= '~' ==> columns == 1,
        is_control(c) ==> columns == 0,
{
    match unicode_char_width(c) {
        Some(width) => width,
        None => 0,
    }
}

/// Whether `c` ends a control sequence: the range from `@` to `~`.
pub open spec fn is_final_char(c: char) -> bool {
    '@' <= c <= '~'
}

/// Where the parameters of a control sequence end: just behind the first
/// final character at or after `from`, or at the end of the text when there
/// is none.
pub open spec fn sequence_end(text: Seq<char>, from: int) -> int
    decreases text.len() - from,
{
    if from < 0 || from >= text.len() {
        text.len() as int
    } else if is_final_char(text[from]) {
        from + 1
    } else {
        sequence_end(text, from + 1)
    }
}

/// Where the escape sequence that opens at `start` ends. The opening
/// character alone is a sequence; followed by `[` it runs through the first
/// final character, or to the end of the text. Nothing opens behind the text.
pub open spec fn escape_end(text: Seq<char>, start: int) -> int {
    if start < 0 || start >= text.len() {
        start
    } else if start + 1 < text.len() && text[start + 1] == '[' {
        sequence_end(text, start + 2)
    } else {
        start + 1
    }
}

/// An escape sequence is never empty and never runs past the text.
pub proof fn lemma_escape_end_bounds(text: Seq<char>, start: int)
    requires
        0 <= start < text.len(),
    ensures
        start < escape_end(text, start) <= text.len(),
{
    if start + 1 < text.len() && text[start + 1] == '[' {
        lemma_sequence_end_bounds(text, start + 2);
    }
}

proof fn lemma_sequence_end_bounds(text: Seq<char>, from: int)
    requires
        0 <= from <= text.len(),
    ensures
        from <= sequence_end(text, from) <= text.len(),
    decreases text.len() - from,
{
    if from < text.len() && !is_final_char(text[from]) {
        lemma_sequence_end_bounds(text, from + 1);
    }
}

/// Finds the end of the escape sequence that opens at `start`, so that the
/// caller can take it over as one unit.
pub fn consume_escape_sequence(text: &[char], start: usize) -> (end: usize)
    ensures
        end == escape_end(text@, start as int),
        start < text.len() ==> start < end <= text.len(),
{
    if start >= text.len() {
        return start;
    }
    if start + 1 >= text.len() || text[start + 1] != '[' {
        return start + 1;
    }
    let mut at: usize = start + 2;
    while at < text.len() && !('@' <= text[at] && text[at] <= '~')
        invariant
            start + 2 <= at <= text.len(),
            sequence_end(text@, start + 2) == sequence_end(text@, at as int),
        decreases text.len() - at,
    {
        at += 1;
    }
    if at < text.len() {
        at + 1
    } else {
        at
    }
}

/// The line being filled while a text is laid out.
pub struct LineState {
    /// What the line holds so far, escape sequences included.
    pub line: Seq<char>,
    /// The columns that the line takes so far.
    pub col: nat,
    /// Whether the line has overflowed under the truncating policy.
    pub truncated: bool,
}

/// An empty line.
pub open spec fn empty_line() -> LineState {
    LineState { line: Seq::empty(), col: 0, truncated: false }
}

/// The display lines for the text from position `at` on, given the line
/// under way. In order of precedence: a carriage return is dropped; a newline
/// ends the line; an escape sequence joins the line whole and takes no
/// column; a character that does not fit is dropped along with the rest of
/// its line when truncating, and opens a new line when wrapping. What is
/// under way at the end of the text is the last line.
pub open spec fn layout_from(
    text: Seq<char>,
    at: int,
    width: nat,
    no_wrap: bool,
    state: LineState,
) -> Seq<Seq<char>>
    decreases text.len() - at,
    via layout_from_decreases
{
    if at < 0 || at >= text.len() {
        seq![state.line]
    } else if text[at] == '\r' {
        layout_from(text, at + 1, width, no_wrap, state)
    } else if text[at] == '\n' {
        seq![state.line] + layout_from(text, at + 1, width, no_wrap, empty_line())
    } else if text[at] == ESCAPE {
        let end = escape_end(text, at);
        layout_from(
            text,
            end,
            width,
            no_wrap,
            LineState { line: state.line + text.subrange(at, end), ..state },
        )
    } else {
        let columns = columns_of(text[at]);
        if no_wrap && (state.truncated || state.col + columns > width) {
            layout_from(text, at + 1, width, no_wrap, LineState { truncated: true, ..state })
        } else if !no_wrap && state.col + columns > width {
            seq![state.line] + layout_from(
                text,
                at + 1,
                width,
                no_wrap,
                LineState { line: seq![text[at]], col: columns, truncated: state.truncated },
            )
        } else {
            layout_from(
                text,
                at + 1,
                width,
                no_wrap,
                LineState {
                    line: state.line.push(text[at]),
                    col: state.col + columns,
                    truncated: state.truncated,
                },
            )
        }
    }
}

#[via_fn]
proof fn layout_from_decreases(
    text: Seq<char>,
    at: int,
    width: nat,
    no_wrap: bool,
    state: LineState,
) {
    if 0 <= at < text.len() {
        lemma_escape_end_bounds(text, at);
    }
}

/// The display lines of a text for a terminal `width` columns wide. A width
/// of zero counts as one.
pub open spec fn layout(text: Seq<char>, width: nat, no_wrap: bool) -> Seq<Seq<char>> {
    layout_from(text, 0, if width < 1 { 1 } else { width }, no_wrap, empty_line())
}

/// Lays a text out in display lines for a terminal `width` columns wide,
/// wrapping or truncating what does not fit.
pub fn split_lines(text: &str, width: usize, no_wrap: bool) -> (lines: Vec<String>)
    ensures
        texts_of(lines@) == layout(text@, width as nat, no_wrap),
        is_printable_ascii(text@) ==> texts_of(lines@) == plain_layout(
            text@,
            width as nat,
            no_wrap,
        ),
{
    let chars = chars_of(text);
    let ghost given = width as nat;
    let width: usize = if width < 1 { 1 } else { width };
    let mut lines: Vec<String> = Vec::new();
    let mut current = String::new();
    let mut col: usize = 0;
    let mut truncated = false;
    let mut at: usize = 0;
    while at < chars.len()
        invariant
            at <= chars.len(),
            width >= 1,
            layout_from(chars@, 0, width as nat, no_wrap, empty_line()) == texts_of(lines@)
                + layout_from(
                chars@,
                at as int,
                width as nat,
                no_wrap,
                LineState { line: current@, col: col as nat, truncated },
            ),
            is_printable_ascii(chars@) ==> forall|i: int|
                0 <= i < at ==> columns_of(#[trigger] chars@[i]) == 1,
        decreases chars.len() - at,
    {
        let ghost before = texts_of(lines@);
        let ch = chars[at];
        if ch == '\r' {
            at += 1;
        } else if ch == '\n' {
            lines.push(current);
            current = String::new();
            col = 0;
            truncated = false;
            at += 1;
            proof {
                let tail = layout_from(chars@, at as int, width as nat, no_wrap, empty_line());
                assert(texts_of(lines@) == before + seq![lines@.last()@]);
                assert(before + (seq![lines@.last()@] + tail) == (before + seq![lines@.last()@])
                    + tail);
            }
        } else if ch == ESCAPE {
            let end = consume_escape_sequence(chars.as_slice(), at);
            push_range(&mut current, chars.as_slice(), at, end);
            at = end;
        } else {
            let columns = display_columns(ch);
            let overflows = col > width || columns > width - col;
            if no_wrap && (truncated || overflows) {
                truncated = true;
            } else if !no_wrap && overflows {
                lines.push(current);
                current = String::new();
                current.push(ch);
                col = columns;
                proof {
                    let tail = layout_from(
                        chars@,
                        at + 1,
                        width as nat,
                        no_wrap,
                        LineState { line: seq![ch], col: columns as nat, truncated },
                    );
                    assert(current@ == seq![ch]);
                    assert(texts_of(lines@) == before + seq![lines@.last()@]);
                    assert(before + (seq![lines@.last()@] + tail) == (before
                        + seq![lines@.last()@]) + tail);
                }
            } else {
                current.push(ch);
                col += columns;
            }
            at += 1;
        }
    }
    lines.push(current);
    proof {
        assert(texts_of(lines@) == texts_of(lines@.drop_last()) + seq![lines@.last()@]);
        if is_printable_ascii(chars@) {
            law_single_column_layout(chars@, given, no_wrap);
        }
    }
    lines
}

/// Lays a text out for a terminal `columns` wide.
pub fn format_text(text: &str, columns: u16, no_wrap: bool) -> (lines: Vec<String>)
    ensures
        texts_of(lines@) == layout(text@, columns as nat, no_wrap),
        is_printable_ascii(text@) ==> texts_of(lines@) == plain_layout(
            text@,
            columns as nat,
            no_wrap,
        ),
{
    split_lines(text, columns as usize, no_wrap)
}

/// What is left of a byte stream once the escape-sequence parser has taken
/// out everything but printable text and line feeds.
pub uninterp spec fn escapes_stripped(bytes: Seq<u8>) -> Seq<u8>;

/// Bytes that are printable ASCII characters, from the space to the tilde.
pub open spec fn printable_bytes(bytes: Seq<u8>) -> bool {
    forall|i: int| 0 <= i < bytes.len() ==> 0x20 <= #[trigger] bytes[i] <= 0x7e
}

/// The characters that ASCII bytes stand for.
pub open spec fn ascii_text(bytes: Seq<u8>) -> Seq<char> {
    Seq::new(bytes.len(), |i: int| bytes[i] as char)
}

/// `strip_ansi_escapes::strip`. Trusted: the bytes that remain are a function
/// of the input bytes alone, and printable ASCII bytes all remain: the
/// parser never leaves its ground state on them and prints each one.
#[verifier::external_body]
fn strip_escape_bytes(bytes: &[u8]) -> (plain: Vec<u8>)
    ensures
        plain@ == escapes_stripped(bytes@),
        printable_bytes(bytes@) ==> plain@ == bytes@,
{
    strip_ansi_escapes::strip(bytes)
}

/// The text that a byte stream decodes to when every malformed sequence is
/// replaced by U+FFFD.
pub uninterp spec fn utf8_lossy(bytes: Seq<u8>) -> Seq<char>;

/// `String::from_utf8_lossy` of the standard library. Trusted: the text is a
/// function of the bytes alone, and well-formed UTF-8 decodes to exactly the
/// characters it encodes.
#[verifier::external_body]
fn decode_lossy(bytes: &[u8]) -> (text: String)
    ensures
        text@ == utf8_lossy(bytes@),
        valid_utf8(bytes@) ==> text@ == decode_utf8(bytes@),
{
    String::from_utf8_lossy(bytes).into_owned()
}

/// A text with its escape sequences taken out.
pub open spec fn stripped_text(text: Seq<char>) -> Seq<char> {
    utf8_lossy(escapes_stripped(encode_utf8(text)))
}

/// Takes the escape sequences out of a text.
pub fn strip_ansi_text(input: &str) -> (out: String)
    ensures
        out@ == stripped_text(input@),
        is_printable_ascii(input@) ==> out@ == input@,
{
    proof {
        encode_utf8_valid_utf8(input@);
        encode_utf8_decode_utf8(input@);
        if is_printable_ascii(input@) {
            is_ascii_chars_encode_utf8(input@);
            assert forall|i: int| 0 <= i < encode_utf8(input@).len() implies 0x20
                <= #[trigger] encode_utf8(input@)[i] <= 0x7e by {
                assert(input@[i] as u8 == encode_utf8(input@)[i]);
            }
        }
    }
    let stripped = strip_escape_bytes(input.as_bytes());
    decode_lossy(stripped.as_slice())
}

/// Printable ASCII bytes are well-formed text, and decode to the
/// characters they stand for.
pub proof fn lemma_printable_bytes_decode(bytes: Seq<u8>)
    requires
        printable_bytes(bytes),
    ensures
        valid_utf8(bytes),
        decode_utf8(bytes) == ascii_text(bytes),
        is_printable_ascii(ascii_text(bytes)),
{
    let chars = ascii_text(bytes);
    assert forall|i: int| 0 <= i < chars.len() implies ' ' <= #[trigger] chars[i] <= '~' by {
        assert(0x20 <= bytes[i] <= 0x7e);
    }
    is_ascii_chars_encode_utf8(chars);
    assert forall|i: int| 0 <= i < bytes.len() implies bytes[i] == encode_utf8(chars)[i] by {
        assert(chars[i] as u8 == encode_utf8(chars)[i]);
        assert(0x20 <= bytes[i] <= 0x7e);
    }
    assert(encode_utf8(chars) =~= bytes);
    encode_utf8_valid_utf8(chars);
    encode_utf8_decode_utf8(chars);
}

/// The text that is laid out for the raw output of a command: escape
/// sequences stay only when colour is always on.
pub open spec fn shown_text(output: Seq<u8>, color: ColorMode) -> Seq<char> {
    match color {
        ColorMode::Always => utf8_lossy(output),
        ColorMode::Auto | ColorMode::Never => stripped_text(utf8_lossy(output)),
    }
}

/// Decodes the raw output of a command, strips or keeps its escape sequences
/// as the colour mode says, and lays it out for a terminal `columns` wide.
pub fn format_output(output: &[u8], columns: u16, no_wrap: bool, color: ColorMode) -> (lines: Vec<
    String,
>)
    ensures
        texts_of(lines@) == layout(shown_text(output@, color), columns as nat, no_wrap),
        color == ColorMode::Always && valid_utf8(output@) ==> texts_of(lines@) == layout(
            decode_utf8(output@),
            columns as nat,
            no_wrap,
        ),
        printable_bytes(output@) ==> texts_of(lines@) == plain_layout(
            ascii_text(output@),
            columns as nat,
            no_wrap,
        ),
{
    proof {
        if printable_bytes(output@) {
            lemma_printable_bytes_decode(output@);
        }
    }
    let text = decode_output(output, color);
    format_text(text.as_str(), columns, no_wrap)
}

/// Decodes the raw output of a command and strips or keeps its escape
/// sequences as the colour mode says.
pub fn decode_output(output: &[u8], color: ColorMode) -> (text: String)
    ensures
        text@ == shown_text(output@, color),
        color == ColorMode::Always && valid_utf8(output@) ==> text@ == decode_utf8(output@),
        printable_bytes(output@) ==> text@ == ascii_text(output@),
{
    proof {
        if printable_bytes(output@) {
            lemma_printable_bytes_decode(output@);
        }
    }
    let input = decode_lossy(output);
    match color {
        ColorMode::Always => input,
        ColorMode::Auto | ColorMode::Never => strip_ansi_text(input.as_str()),
    }
}

/// The terminal's dimensions, in character cells.
#[derive(Debug, Clone, Copy, PartialEq, Eq, Structural)]
pub struct TerminalSize {
    pub columns: u16,
    pub rows: u16,
}

/// The settings that decide how a frame is drawn.
#[derive(Debug, Clone, Copy, PartialEq, Eq, Structural)]
pub struct RenderConfig {
    pub no_title: bool,
    pub no_wrap: bool,
    pub color: ColorMode,
}

/// The dimension that a setting spells: a positive decimal number that fits
/// sixteen bits, which white space may surround and one `+` may precede.
pub open spec fn dimension_of(value: Seq<char>) -> Option<u16> {
    let text = trimmed(value);
    let digits = if text.len() > 0 && text[0] == '+' {
        text.skip(1)
    } else {
        text
    };
    if digits.len() > 0 && all_digits(digits) && 0 < digits_value(digits) <= 0xffff {
        Some(digits_value(digits) as u16)
    } else {
        None
    }
}

/// Reads one dimension from a setting; anything but a positive number that
/// fits sixteen bits counts as not set.
pub fn parse_dimension(value: &str) -> (dimension: Option<u16>)
    ensures
        dimension == dimension_of(value@),
{
    let chars = chars_of(value);
    let (start, end) = trim_bounds(chars.as_slice());
    let first: usize = if start < end && chars[start] == '+' {
        start + 1
    } else {
        start
    };
    let ghost text = trimmed(chars@);
    let ghost digits = chars@.subrange(first as int, end as int);
    proof {
        if first > start {
            assert(text.skip(1) == digits);
        } else {
            assert(text == digits);
        }
        lemma_digits_end(chars@, first as int);
    }
    if first == end {
        return None;
    }
    let stop = scan_digits(chars.as_slice(), first);
    if stop < end {
        proof {
            assert(digits[stop - first] == chars@[stop as int]);
        }
        return None;
    }
    proof {
        assert forall|i: int| 0 <= i < digits.len() implies is_digit(#[trigger] digits[i]) by {
            assert(digits[i] == chars@.subrange(first as int, stop as int)[i]);
        }
    }
    let value = capped_value(chars.as_slice(), first, end, 0x1_0000);
    if value == 0 || value > 0xffff {
        None
    } else {
        Some(value as u16)
    }
}

/// A setting that may be absent, as a mathematical value.
pub open spec fn setting_text(value: Option<&str>) -> Option<Seq<char>> {
    match value {
        Some(text) => Some(text@),
        None => None,
    }
}

/// The dimension that an optional setting gives.
pub open spec fn setting_dimension(value: Option<Seq<char>>) -> Option<u16> {
    match value {
        Some(text) => dimension_of(text),
        None => None,
    }
}

/// One dimension: the setting first, else what the terminal reports, else
/// the default; never less than one.
pub open spec fn resolved_dimension(setting: Option<u16>, live: Option<u16>, default: u16) -> u16 {
    let chosen = match setting {
        Some(n) => n,
        None => match live {
            Some(n) => n,
            None => default,
        },
    };
    if chosen < 1 {
        1
    } else {
        chosen
    }
}

/// The size to draw for: the settings for columns and lines win over what
/// the terminal reports (`live`, columns first), 80 by 24 stands in for what
/// neither gives, and no dimension is less than one.
pub open spec fn resolved_size(
    columns: Option<Seq<char>>,
    lines: Option<Seq<char>>,
    live: Option<(u16, u16)>,
) -> TerminalSize {
    TerminalSize {
        columns: resolved_dimension(
            setting_dimension(columns),
            match live {
                Some(size) => Some(size.0),
                None => None,
            },
            80,
        ),
        rows: resolved_dimension(
            setting_dimension(lines),
            match live {
                Some(size) => Some(size.1),
                None => None,
            },
            24,
        ),
    }
}

fn resolve_dimension(setting: Option<u16>, live: Option<u16>, default: u16) -> (chosen: u16)
    ensures
        chosen == resolved_dimension(setting, live, default),
{
    let chosen = match setting {
        Some(n) => n,
        None => match live {
            Some(n) => n,
            None => default,
        },
    };
    if chosen < 1 {
        1
    } else {
        chosen
    }
}

/// Decides the size to draw for from the two settings, as found in the
/// environment, and from the size that the terminal reports, if it does.
pub fn terminal_size(columns: Option<&str>, lines: Option<&str>, live: Option<(u16, u16)>) -> (size:
    TerminalSize)
    ensures
        size == resolved_size(setting_text(columns), setting_text(lines), live),
{
    let set_columns = match columns {
        Some(text) => parse_dimension(text),
        None => None,
    };
    let set_rows = match lines {
        Some(text) => parse_dimension(text),
        None => None,
    };
    let (live_columns, live_rows) = match live {
        Some(size) => (Some(size.0), Some(size.1)),
        None => (None, None),
    };
    TerminalSize {
        columns: resolve_dimension(set_columns, live_columns, 80),
        rows: resolve_dimension(set_rows, live_rows, 24),
    }
}

/// The columns that the width tables assign to a whole text, ligatures and
/// emoji sequences counted as one unit.
pub uninterp spec fn text_width(text: Seq<char>) -> usize;

/// `unicode_width::UnicodeWidthStr::width`. Trusted: the width is a function
/// of the text alone, and a text of printable ASCII characters is as wide as
/// it is long.
#[verifier::external_body]
fn unicode_text_width(text: &str) -> (width: usize)
    ensures
        width == text_width(text@),
        (forall|i: int| 0 <= i < text@.len() ==> ' ' <= #[trigger] text@[i] <= '~') ==> width
            == text@.len(),
{
    unicode_width::UnicodeWidthStr::width(text)
}

/// The longest beginning of the text from `at` on that fits in `width`
/// columns when `col` are taken. An escape sequence is kept whole and takes
/// no column; the text ends before the first character that does not fit.
pub open spec fn truncated_from(text: Seq<char>, at: int, width: nat, col: nat) -> Seq<char>
    decreases text.len() - at,
    via truncated_from_decreases
{
    if at < 0 || at >= text.len() {
        Seq::empty()
    } else if text[at] == ESCAPE {
        let end = escape_end(text, at);
        text.subrange(at, end) + truncated_from(text, end, width, col)
    } else if col + columns_of(text[at]) > width {
        Seq::empty()
    } else {
        seq![text[at]] + truncated_from(text, at + 1, width, col + columns_of(text[at]))
    }
}

#[via_fn]
proof fn truncated_from_decreases(text: Seq<char>, at: int, width: nat, col: nat) {
    if 0 <= at < text.len() {
        lemma_escape_end_bounds(text, at);
    }
}

/// The longest beginning of `text` that fits in `width` columns.
pub open spec fn truncated(text: Seq<char>, width: nat) -> Seq<char> {
    truncated_from(text, 0, width, 0)
}

/// Cuts a text to at most `width` columns, never inside an escape sequence.
pub fn truncate_to_width(input: &str, width: usize) -> (out: String)
    ensures
        out@ == truncated(input@, width as nat),
        is_printable_ascii(input@) ==> out@ == first_chunk(input@, width as nat),
{
    let chars = chars_of(input);
    let mut out = String::new();
    let mut col: usize = 0;
    let mut at: usize = 0;
    let mut full = false;
    while at < chars.len() && !full
        invariant
            at <= chars.len(),
            col <= width,
            !full ==> truncated(chars@, width as nat) == out@ + truncated_from(
                chars@,
                at as int,
                width as nat,
                col as nat,
            ),
            full ==> truncated(chars@, width as nat) == out@,
            is_printable_ascii(chars@) ==> forall|i: int|
                0 <= i < at ==> columns_of(#[trigger] chars@[i]) == 1,
            is_printable_ascii(chars@) && full ==> at < chars.len() && at == width && columns_of(
                chars@[at as int],
            ) == 1,
            is_printable_ascii(chars@) ==> col == at,
        decreases chars.len() - at, if full { 0int } else { 1int },
    {
        let ghost before = out@;
        let ch = chars[at];
        if ch == ESCAPE {
            let end = consume_escape_sequence(chars.as_slice(), at);
            push_range(&mut out, chars.as_slice(), at, end);
            proof {
                let tail = truncated_from(chars@, end as int, width as nat, col as nat);
                assert(before + (chars@.subrange(at as int, end as int) + tail) == (before
                    + chars@.subrange(at as int, end as int)) + tail);
            }
            at = end;
        } else {
            let columns = display_columns(ch);
            if columns > width - col {
                full = true;
                assert(before + Seq::<char>::empty() == before);
            } else {
                out.push(ch);
                col += columns;
                proof {
                    let tail = truncated_from(chars@, at + 1, width as nat, col as nat);
                    assert(before + (seq![ch] + tail) == (before + seq![ch]) + tail);
                    assert(before.push(ch) == before + seq![ch]);
                }
                at += 1;
            }
        }
    }
    proof {
        if !full {
            assert(out@ + Seq::<char>::empty() == out@);
        }
        if is_printable_ascii(chars@) {
            lemma_cut_of_printable(chars@, width as nat, at as int, full);
        }
    }
    out
}

proof fn lemma_cut_of_printable(text: Seq<char>, width: nat, at: int, full: bool)
    requires
        is_printable_ascii(text),
        0 <= at <= text.len(),
        at <= width,
        forall|i: int| 0 <= i < at ==> columns_of(#[trigger] text[i]) == 1,
        full ==> at < text.len() && at == width && columns_of(text[at]) == 1,
        !full ==> at == text.len(),
    ensures
        truncated(text, width) == first_chunk(text, width),
{
    lemma_cut_from(text, width, 0, at);
    if full {
        assert(truncated_from(text, at, width, at as nat) == Seq::<char>::empty());
    }
    assert(text.subrange(0, at) + Seq::<char>::empty() == text.take(at));
    assert(text.take(text.len() as int) == text);
}

proof fn lemma_cut_from(text: Seq<char>, width: nat, from: int, at: int)
    requires
        is_printable_ascii(text),
        0 <= from <= at <= text.len(),
        at <= width,
        forall|i: int| 0 <= i < at ==> columns_of(#[trigger] text[i]) == 1,
    ensures
        truncated_from(text, from, width, from as nat) == text.subrange(from, at) + truncated_from(
            text,
            at,
            width,
            at as nat,
        ),
    decreases at - from,
{
    if from < at {
        lemma_cut_from(text, width, from + 1, at);
        assert(seq![text[from]] + (text.subrange(from + 1, at) + truncated_from(
            text,
            at,
            width,
            at as nat,
        )) == text.subrange(from, at) + truncated_from(text, at, width, at as nat));
    } else {
        assert(text.subrange(from, at) + truncated_from(text, at, width, at as nat)
            == truncated_from(text, at, width, at as nat));
    }
}

/// The left part of the header: the interval, as the text that shows it,
/// and the command.
pub open spec fn title_text(command: Seq<Seq<char>>, interval: Seq<char>) -> Seq<char> {
    "Every "@ + interval + "s: "@ + joined(command, " "@)
}

/// A command of printable words.
pub open spec fn printable_words(command: Seq<Seq<char>>) -> bool {
    forall|i: int| 0 <= i < command.len() ==> is_printable_ascii(#[trigger] command[i])
}

/// The title of a command of printable words, with a printable interval,
/// is printable.
pub proof fn lemma_title_printable(command: Seq<Seq<char>>, interval: Seq<char>)
    requires
        printable_words(command),
        is_printable_ascii(interval),
    ensures
        is_printable_ascii(title_text(command, interval)),
{
    reveal_strlit("Every ");
    reveal_strlit("s: ");
    reveal_strlit(" ");
    lemma_joined_printable(command, " "@);
    assert(is_printable_ascii("Every "@));
    assert(is_printable_ascii("s: "@));
}

/// Writes the left part of the header. `interval` is the interval in
/// seconds as the header is to show it.
pub fn title(command: &[String], interval: &str) -> (out: String)
    ensures
        out@ == title_text(texts_of(command@), interval@),
{
    let mut out = "Every ".to_owned();
    out.append(interval);
    out.append("s: ");
    let words = join(command, " ");
    out.append(words.as_str());
    out
}

/// The header line: `left` cut to the terminal's width, then, where there is
/// room for it behind one space at least, `right` pushed to the last column.
pub open spec fn header_text(left: Seq<char>, right: Seq<char>, columns: nat) -> Seq<char> {
    let fitted = truncated(left, columns);
    if columns <= text_width(right) + 1 {
        fitted
    } else {
        let room = (columns - text_width(right) - 1) as nat;
        let kept = if text_width(fitted) > room {
            truncated(fitted, room)
        } else {
            fitted
        };
        let pad = if room > text_width(kept) {
            (room - text_width(kept)) as nat
        } else {
            0
        };
        kept + spaces(pad + 1) + right
    }
}

/// Builds the header line from its two parts for a terminal `columns` wide.
pub fn compose_header(left: &str, right: &str, columns: usize) -> (line: String)
    ensures
        line@ == header_text(left@, right@, columns as nat),
        is_printable_ascii(left@) && is_printable_ascii(right@) ==> line@ == plain_header(
            left@,
            right@,
            columns as nat,
        ),
{
    let fitted = truncate_to_width(left, columns);
    let right_width = unicode_text_width(right);
    if right_width >= columns || right_width + 1 >= columns {
        return fitted;
    }
    let room: usize = columns - right_width - 1;
    let mut line = if unicode_text_width(fitted.as_str()) > room {
        truncate_to_width(fitted.as_str(), room)
    } else {
        fitted
    };
    proof {
        if is_printable_ascii(left@) && is_printable_ascii(right@) {
            assert(line@ == first_chunk(left@, room as nat));
        }
    }
    let kept_width = unicode_text_width(line.as_str());
    let pad: usize = if room > kept_width {
        room - kept_width
    } else {
        0
    };
    push_spaces(&mut line, pad + 1);
    line.append(right);
    line
}

/// The header line for a command run every `interval` seconds, with
/// `right` (the clock) at the right edge. `interval` is the number as the
/// header is to show it.
pub fn header_line_with_time(
    command: &[String],
    interval: &str,
    right: &str,
    columns: u16,
) -> (line: String)
    ensures
        line@ == header_text(title_text(texts_of(command@), interval@), right@, columns as nat),
        printable_words(texts_of(command@)) && is_printable_ascii(interval@) && is_printable_ascii(
            right@,
        ) ==> line@ == plain_header(
            title_text(texts_of(command@), interval@),
            right@,
            columns as nat,
        ),
{
    let left = title(command, interval);
    proof {
        if printable_words(texts_of(command@)) && is_printable_ascii(interval@) {
            lemma_title_printable(texts_of(command@), interval@);
        }
    }
    compose_header(left.as_str(), right, columns as usize)
}

} // verus!

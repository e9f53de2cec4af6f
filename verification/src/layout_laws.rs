//! What holds of every layout: escape sequences take no column, text of
//! single-column characters is cut into equal pieces, and wrapping loses
//! nothing.

use vstd::prelude::*;

use crate::text::spaces;
use crate::render::{
    columns_of, empty_line, escape_end, is_final_char, layout, layout_from,
    lemma_escape_end_bounds, sequence_end, truncated, truncated_from, LineState, ESCAPE,
};

verus! {

/// Text in which every character takes one column and none is a carriage
/// return, a newline or the opening of an escape sequence.
pub open spec fn single_column_text(text: Seq<char>) -> bool {
    forall|i: int|
        0 <= i < text.len() ==> {
            &&& columns_of(#[trigger] text[i]) == 1
            &&& text[i] != '\r'
            &&& text[i] != '\n'
            &&& text[i] != ESCAPE
        }
}

/// The text cut into pieces of `width` characters, the last one shorter
/// where the length is no multiple; the empty text is one empty piece.
pub open spec fn chunks(text: Seq<char>, width: nat) -> Seq<Seq<char>>
    decreases text.len(),
{
    if width == 0 || text.len() <= width {
        seq![text]
    } else {
        seq![text.take(width as int)] + chunks(text.skip(width as int), width)
    }
}

/// The width that the layout works with: one column at least.
pub open spec fn usable_width(width: nat) -> nat {
    if width < 1 {
        1
    } else {
        width
    }
}

proof fn lemma_wrap_from(text: Seq<char>, width: nat, start: int, at: int, truncated: bool)
    requires
        single_column_text(text),
        width >= 1,
        0 <= start <= at <= text.len(),
        at - start <= width,
    ensures
        layout_from(
            text,
            at,
            width,
            false,
            LineState { line: text.subrange(start, at), col: (at - start) as nat, truncated },
        ) == chunks(text.skip(start), width),
    decreases text.len() - at,
{
    let tail = text.skip(start);
    if at == text.len() {
        assert(text.subrange(start, at) == tail);
    } else if at - start == width {
        lemma_wrap_from(text, width, at, at + 1, truncated);
        assert(text.subrange(at, at + 1) == seq![text[at]]);
        assert(tail.take(width as int) == text.subrange(start, at));
        assert(tail.skip(width as int) == text.skip(at));
    } else {
        lemma_wrap_from(text, width, start, at + 1, truncated);
        assert(text.subrange(start, at).push(text[at]) == text.subrange(start, at + 1));
    }
}

/// Wrapping a text of single-column characters cuts it into pieces as wide
/// as the terminal.
pub proof fn law_wrap_cuts_into_chunks(text: Seq<char>, width: nat)
    requires
        single_column_text(text),
    ensures
        layout(text, width, false) == chunks(text, usable_width(width)),
{
    lemma_wrap_from(text, usable_width(width), 0, 0, false);
    assert(text.subrange(0, 0) == Seq::<char>::empty());
    assert(text.skip(0) == text);
}

/// The number of pieces that a text is cut into: the length divided by the
/// width, rounded up, and one piece for the empty text.
pub proof fn law_chunk_count(text: Seq<char>, width: nat)
    requires
        width >= 1,
    ensures
        chunks(text, width).len() == if text.len() == 0 {
            1
        } else {
            (text.len() + width - 1) / (width as int)
        },
    decreases text.len(),
{
    let len = text.len() as int;
    let w = width as int;
    if len <= w {
        if len > 0 {
            assert((len + w - 1) / w == 1) by (nonlinear_arith)
                requires
                    0 < len <= w,
            ;
        }
    } else {
        law_chunk_count(text.skip(w), width);
        assert((len + w - 1) / w == (len - w + w - 1) / w + 1) by (nonlinear_arith)
            requires
                len > w,
                w >= 1,
        ;
    }
}

proof fn lemma_truncate_from(text: Seq<char>, width: nat, at: int, truncated: bool)
    requires
        single_column_text(text),
        width >= 1,
        0 <= at <= text.len(),
        truncated ==> at >= width,
    ensures
        layout_from(
            text,
            at,
            width,
            true,
            LineState {
                line: text.take(if at < width { at } else { width as int }),
                col: if at < width { at as nat } else { width },
                truncated,
            },
        ) == seq![text.take(if text.len() < width { text.len() as int } else { width as int })],
    decreases text.len() - at,
{
    if at < text.len() {
        if truncated || at >= width {
            lemma_truncate_from(text, width, at + 1, true);
        } else {
            lemma_truncate_from(text, width, at + 1, false);
            assert(text.take(at).push(text[at]) == text.take(at + 1));
        }
    }
}

/// Truncating a text of single-column characters keeps its first piece as
/// wide as the terminal and nothing else.
pub proof fn law_truncate_keeps_first_chunk(text: Seq<char>, width: nat)
    requires
        single_column_text(text),
    ensures
        layout(text, width, true) == seq![
            text.take(
                if text.len() < usable_width(width) {
                    text.len() as int
                } else {
                    usable_width(width) as int
                },
            ),
        ],
{
    lemma_truncate_from(text, usable_width(width), 0, false);
    assert(text.take(0) == Seq::<char>::empty());
}

/// The first `width` characters of a text, or all of it where it is
/// shorter.
pub open spec fn first_chunk(text: Seq<char>, width: nat) -> Seq<char> {
    if text.len() < width {
        text
    } else {
        text.take(width as int)
    }
}

/// The layout of a text of single-column characters, said without the
/// walk: its pieces under wrapping, its first piece under truncation.
pub open spec fn plain_layout(text: Seq<char>, width: nat, no_wrap: bool) -> Seq<Seq<char>> {
    if no_wrap {
        seq![first_chunk(text, usable_width(width))]
    } else {
        chunks(text, usable_width(width))
    }
}

/// The layout of a text of single-column characters is its plain layout.
pub proof fn law_single_column_layout(text: Seq<char>, width: nat, no_wrap: bool)
    requires
        single_column_text(text),
    ensures
        layout(text, width, no_wrap) == plain_layout(text, width, no_wrap),
{
    if no_wrap {
        law_truncate_keeps_first_chunk(text, width);
        assert(text.take(text.len() as int) == text);
    } else {
        law_wrap_cuts_into_chunks(text, width);
    }
}

proof fn lemma_truncated_from(text: Seq<char>, width: nat, at: int)
    requires
        single_column_text(text),
        0 <= at <= text.len(),
        at <= width,
    ensures
        truncated_from(text, at, width, at as nat) == text.subrange(
            at,
            first_chunk(text, width).len() as int,
        ),
    decreases text.len() - at,
{
    let end = first_chunk(text, width).len() as int;
    if at < text.len() && at < width {
        lemma_truncated_from(text, width, at + 1);
        assert(seq![text[at]] + text.subrange(at + 1, end) == text.subrange(at, end));
    } else {
        assert(text.subrange(at, end) == Seq::<char>::empty());
    }
}

/// Cutting a text of single-column characters to a width keeps its first
/// characters, as many as the width.
pub proof fn law_single_column_truncation(text: Seq<char>, width: nat)
    requires
        single_column_text(text),
    ensures
        truncated(text, width) == first_chunk(text, width),
{
    lemma_truncated_from(text, width, 0);
    assert(text.subrange(0, text.len() as int) == text);
}

/// The header line for parts of single-column characters, said without
/// measuring: the title alone, cut to the width, where the clock has no
/// room behind one space; else the title cut to the room that the clock
/// leaves, spaces up to the clock, and the clock.
pub open spec fn plain_header(left: Seq<char>, right: Seq<char>, columns: nat) -> Seq<char> {
    if columns <= right.len() + 1 {
        first_chunk(left, columns)
    } else {
        let room = (columns - right.len() - 1) as nat;
        let kept = first_chunk(left, room);
        kept + spaces((room - kept.len() + 1) as nat) + right
    }
}

/// Where the clock has room, the header fills the width exactly and ends
/// with the clock, so that the clock's last character stands in the last
/// column.
pub proof fn law_header_fills_the_width(left: Seq<char>, right: Seq<char>, columns: nat)
    requires
        columns > right.len() + 1,
    ensures
        plain_header(left, right, columns).len() == columns,
        plain_header(left, right, columns).skip(columns - right.len()) == right,
{
    let room = (columns - right.len() - 1) as nat;
    let kept = first_chunk(left, room);
    let line = plain_header(left, right, columns);
    assert(line == kept + spaces((room - kept.len() + 1) as nat) + right);
    assert(line.skip(columns - right.len()) == right);
}

/// The lines one behind the other.
pub open spec fn concat(lines: Seq<Seq<char>>) -> Seq<char>
    decreases lines.len(),
{
    if lines.len() == 0 {
        Seq::empty()
    } else {
        lines[0] + concat(lines.skip(1))
    }
}

/// The text from `at` on without its line breaks: the carriage returns and
/// newlines outside escape sequences are left out, all else stays.
pub open spec fn without_breaks_from(text: Seq<char>, at: int) -> Seq<char>
    decreases text.len() - at,
    via without_breaks_decreases
{
    if at < 0 || at >= text.len() {
        Seq::empty()
    } else if text[at] == '\r' || text[at] == '\n' {
        without_breaks_from(text, at + 1)
    } else if text[at] == ESCAPE {
        text.subrange(at, escape_end(text, at)) + without_breaks_from(text, escape_end(text, at))
    } else {
        seq![text[at]] + without_breaks_from(text, at + 1)
    }
}

#[via_fn]
proof fn without_breaks_decreases(text: Seq<char>, at: int) {
    if 0 <= at < text.len() {
        lemma_escape_end_bounds(text, at);
    }
}

/// The text without its line breaks.
pub open spec fn without_breaks(text: Seq<char>) -> Seq<char> {
    without_breaks_from(text, 0)
}

/// Text without carriage returns and newlines.
pub open spec fn unbroken(text: Seq<char>) -> bool {
    forall|i: int| 0 <= i < text.len() ==> #[trigger] text[i] != '\r' && text[i] != '\n'
}

proof fn lemma_wrap_keeps_from(text: Seq<char>, at: int, width: nat, state: LineState)
    requires
        0 <= at <= text.len(),
    ensures
        concat(layout_from(text, at, width, false, state)) == state.line + without_breaks_from(
            text,
            at,
        ),
    decreases text.len() - at,
{
    let lines = layout_from(text, at, width, false, state);
    let kept = without_breaks_from(text, at);
    if at == text.len() {
        assert(lines.skip(1) == Seq::<Seq<char>>::empty());
        assert(state.line + kept == state.line + concat(lines.skip(1)));
    } else if text[at] == '\r' {
        lemma_wrap_keeps_from(text, at + 1, width, state);
    } else if text[at] == '\n' {
        let rest = layout_from(text, at + 1, width, false, empty_line());
        lemma_wrap_keeps_from(text, at + 1, width, empty_line());
        assert(lines == seq![state.line] + rest);
        assert(lines.skip(1) == rest);
        assert(Seq::<char>::empty() + kept == kept);
    } else if text[at] == ESCAPE {
        let end = escape_end(text, at);
        lemma_escape_end_bounds(text, at);
        let next = LineState { line: state.line + text.subrange(at, end), ..state };
        lemma_wrap_keeps_from(text, end, width, next);
        assert(state.line + text.subrange(at, end) + without_breaks_from(text, end) == state.line
            + kept);
    } else if state.col + columns_of(text[at]) > width {
        let next = LineState {
            line: seq![text[at]],
            col: columns_of(text[at]),
            truncated: state.truncated,
        };
        let rest = layout_from(text, at + 1, width, false, next);
        lemma_wrap_keeps_from(text, at + 1, width, next);
        assert(lines == seq![state.line] + rest);
        assert(lines.skip(1) == rest);
    } else {
        let next = LineState {
            line: state.line.push(text[at]),
            col: state.col + columns_of(text[at]),
            truncated: state.truncated,
        };
        lemma_wrap_keeps_from(text, at + 1, width, next);
        assert(state.line.push(text[at]) + without_breaks_from(text, at + 1) == state.line + kept);
    }
}

/// Wrapping loses nothing but the line breaks: the lines of a text, put one
/// behind the other, are the text without its line breaks, escape sequences
/// included.
pub proof fn law_wrap_keeps_text(text: Seq<char>, width: nat)
    ensures
        concat(layout(text, width, false)) == without_breaks(text),
{
    lemma_wrap_keeps_from(text, 0, usable_width(width), empty_line());
    assert(Seq::<char>::empty() + without_breaks(text) == without_breaks(text));
}

proof fn lemma_unbroken_from(text: Seq<char>, at: int)
    requires
        unbroken(text),
        0 <= at <= text.len(),
    ensures
        without_breaks_from(text, at) == text.skip(at),
    decreases text.len() - at,
{
    if at < text.len() {
        if text[at] == ESCAPE {
            let end = escape_end(text, at);
            lemma_escape_end_bounds(text, at);
            lemma_unbroken_from(text, end);
            assert(text.subrange(at, end) + text.skip(end) == text.skip(at));
        } else {
            lemma_unbroken_from(text, at + 1);
            assert(seq![text[at]] + text.skip(at + 1) == text.skip(at));
        }
    } else {
        assert(text.skip(at) == Seq::<char>::empty());
    }
}

/// The lines of a wrapped text without line breaks, put one behind the
/// other, are the text again.
pub proof fn law_wrap_keeps_unbroken_text(text: Seq<char>, width: nat)
    requires
        unbroken(text),
    ensures
        concat(layout(text, width, false)) == text,
{
    law_wrap_keeps_text(text, width);
    lemma_unbroken_from(text, 0);
    assert(text.skip(0) == text);
}

/// The columns that a text without escape sequences takes: those of its
/// characters together.
pub open spec fn text_columns(text: Seq<char>) -> nat
    decreases text.len(),
{
    if text.len() == 0 {
        0
    } else {
        text_columns(text.drop_last()) + columns_of(text.last())
    }
}

/// A complete control sequence: the opening character, `[`, parameters
/// that hold no final character, and one final character.
pub open spec fn is_control_sequence(seq: Seq<char>) -> bool {
    &&& seq.len() >= 3
    &&& seq[0] == ESCAPE
    &&& seq[1] == '['
    &&& is_final_char(seq.last())
    &&& forall|i: int| 2 <= i < seq.len() - 1 ==> !is_final_char(#[trigger] seq[i])
}

/// The lines with `prefix` put before the first of them.
pub open spec fn with_prefix(prefix: Seq<char>, lines: Seq<Seq<char>>) -> Seq<Seq<char>> {
    if lines.len() == 0 {
        lines
    } else {
        lines.update(0, prefix + lines[0])
    }
}

proof fn lemma_sequence_end_shift(front: Seq<char>, rest: Seq<char>, from: int)
    requires
        0 <= from <= rest.len(),
    ensures
        sequence_end(front + rest, front.len() + from) == front.len() + sequence_end(rest, from),
    decreases rest.len() - from,
{
    if from < rest.len() {
        assert((front + rest)[front.len() + from] == rest[from]);
        if !is_final_char(rest[from]) {
            lemma_sequence_end_shift(front, rest, from + 1);
        }
    }
}

proof fn lemma_sequence_end_found(text: Seq<char>, from: int, end: int)
    requires
        0 <= from <= end <= text.len(),
        forall|j: int| from <= j < end - 1 ==> !is_final_char(#[trigger] text[j]),
        from < end && is_final_char(text[end - 1]) || end == text.len() && (from < end
            ==> !is_final_char(text[end - 1])),
    ensures
        sequence_end(text, from) == end,
    decreases end - from,
{
    if from < end - 1 {
        assert(!is_final_char(text[from]));
        lemma_sequence_end_found(text, from + 1, end);
    } else if from < end && !is_final_char(text[from]) {
        assert(sequence_end(text, from + 1) == text.len());
    }
}

proof fn lemma_sequence_end_scan(text: Seq<char>, from: int)
    requires
        0 <= from <= text.len(),
    ensures
        from <= sequence_end(text, from) <= text.len(),
        forall|j: int|
            from <= j < sequence_end(text, from) - 1 ==> !is_final_char(#[trigger] text[j]),
        from < sequence_end(text, from) && is_final_char(text[sequence_end(text, from) - 1])
            || sequence_end(text, from) == text.len() && (from < text.len() ==> !is_final_char(
            text[text.len() - 1],
        )),
    decreases text.len() - from,
{
    if from < text.len() && !is_final_char(text[from]) {
        lemma_sequence_end_scan(text, from + 1);
    }
}

proof fn lemma_escape_end_shift(front: Seq<char>, rest: Seq<char>, at: int)
    requires
        0 <= at < rest.len(),
    ensures
        escape_end(front + rest, front.len() + at) == front.len() + escape_end(rest, at),
{
    if at + 1 < rest.len() {
        assert((front + rest)[front.len() + at + 1] == rest[at + 1]);
        if rest[at + 1] == '[' {
            lemma_sequence_end_shift(front, rest, at + 2);
        }
    }
}

proof fn lemma_layout_shift(
    front: Seq<char>,
    rest: Seq<char>,
    at: int,
    width: nat,
    no_wrap: bool,
    state: LineState,
)
    requires
        0 <= at <= rest.len(),
    ensures
        layout_from(front + rest, front.len() + at, width, no_wrap, state) == layout_from(
            rest,
            at,
            width,
            no_wrap,
            state,
        ),
    decreases rest.len() - at,
{
    let text = front + rest;
    let here = front.len() + at;
    if at < rest.len() {
        let c = rest[at];
        assert(text[here] == c);
        if c == '\r' {
            lemma_layout_shift(front, rest, at + 1, width, no_wrap, state);
        } else if c == '\n' {
            lemma_layout_shift(front, rest, at + 1, width, no_wrap, empty_line());
        } else if c == ESCAPE {
            let end = escape_end(rest, at);
            lemma_escape_end_bounds(rest, at);
            lemma_escape_end_shift(front, rest, at);
            assert(text.subrange(here, front.len() + end) == rest.subrange(at, end));
            lemma_layout_shift(
                front,
                rest,
                end,
                width,
                no_wrap,
                LineState { line: state.line + rest.subrange(at, end), ..state },
            );
        } else {
            let columns = columns_of(c);
            if no_wrap && (state.truncated || state.col + columns > width) {
                lemma_layout_shift(
                    front,
                    rest,
                    at + 1,
                    width,
                    no_wrap,
                    LineState { truncated: true, ..state },
                );
            } else if !no_wrap && state.col + columns > width {
                lemma_layout_shift(
                    front,
                    rest,
                    at + 1,
                    width,
                    no_wrap,
                    LineState { line: seq![c], col: columns, truncated: state.truncated },
                );
            } else {
                lemma_layout_shift(
                    front,
                    rest,
                    at + 1,
                    width,
                    no_wrap,
                    LineState {
                        line: state.line.push(c),
                        col: state.col + columns,
                        truncated: state.truncated,
                    },
                );
            }
        }
    }
}

/// A layout has one line at least: what is under way at the end of the text
/// is a line, even where it is empty.
pub proof fn law_layout_has_lines(
    text: Seq<char>,
    at: int,
    width: nat,
    no_wrap: bool,
    state: LineState,
)
    ensures
        layout_from(text, at, width, no_wrap, state).len() >= 1,
    decreases text.len() - at,
{
    if 0 <= at < text.len() {
        let c = text[at];
        if c == '\r' {
            law_layout_has_lines(text, at + 1, width, no_wrap, state);
        } else if c == '\n' {
        } else if c == ESCAPE {
            let end = escape_end(text, at);
            lemma_escape_end_bounds(text, at);
            law_layout_has_lines(
                text,
                end,
                width,
                no_wrap,
                LineState { line: state.line + text.subrange(at, end), ..state },
            );
        } else {
            let columns = columns_of(c);
            if no_wrap && (state.truncated || state.col + columns > width) {
                law_layout_has_lines(
                    text,
                    at + 1,
                    width,
                    no_wrap,
                    LineState { truncated: true, ..state },
                );
            } else if !no_wrap && state.col + columns > width {
            } else {
                law_layout_has_lines(
                    text,
                    at + 1,
                    width,
                    no_wrap,
                    LineState {
                        line: state.line.push(c),
                        col: state.col + columns,
                        truncated: state.truncated,
                    },
                );
            }
        }
    }
}

proof fn lemma_layout_prefix(
    text: Seq<char>,
    at: int,
    width: nat,
    no_wrap: bool,
    prefix: Seq<char>,
    state: LineState,
)
    ensures
        layout_from(text, at, width, no_wrap, LineState { line: prefix + state.line, ..state })
            == with_prefix(prefix, layout_from(text, at, width, no_wrap, state)),
    decreases text.len() - at,
{
    let longer = LineState { line: prefix + state.line, ..state };
    if at < 0 || at >= text.len() {
        assert(seq![prefix + state.line] == with_prefix(prefix, seq![state.line]));
    } else {
        let c = text[at];
        if c == '\r' {
            lemma_layout_prefix(text, at + 1, width, no_wrap, prefix, state);
        } else if c == '\n' {
            let rest = layout_from(text, at + 1, width, no_wrap, empty_line());
            assert(seq![prefix + state.line] + rest == with_prefix(
                prefix,
                seq![state.line] + rest,
            ));
        } else if c == ESCAPE {
            let end = escape_end(text, at);
            lemma_escape_end_bounds(text, at);
            let piece = text.subrange(at, end);
            let next = LineState { line: state.line + piece, ..state };
            lemma_layout_prefix(text, end, width, no_wrap, prefix, next);
            assert(prefix + state.line + piece == prefix + (state.line + piece));
        } else {
            let columns = columns_of(c);
            if no_wrap && (state.truncated || state.col + columns > width) {
                lemma_layout_prefix(
                    text,
                    at + 1,
                    width,
                    no_wrap,
                    prefix,
                    LineState { truncated: true, ..state },
                );
            } else if !no_wrap && state.col + columns > width {
                let rest = layout_from(
                    text,
                    at + 1,
                    width,
                    no_wrap,
                    LineState { line: seq![c], col: columns, truncated: state.truncated },
                );
                assert(seq![prefix + state.line] + rest == with_prefix(
                    prefix,
                    seq![state.line] + rest,
                ));
            } else {
                let next = LineState {
                    line: state.line.push(c),
                    col: state.col + columns,
                    truncated: state.truncated,
                };
                lemma_layout_prefix(text, at + 1, width, no_wrap, prefix, next);
                assert((prefix + state.line).push(c) == prefix + state.line.push(c));
            }
        }
    }
}

proof fn lemma_control_sequence_end(seq: Seq<char>, rest: Seq<char>, from: int)
    requires
        is_control_sequence(seq),
        2 <= from < seq.len(),
    ensures
        sequence_end(seq + rest, from) == seq.len(),
    decreases seq.len() - from,
{
    assert((seq + rest)[from] == seq[from]);
    if from < seq.len() - 1 {
        lemma_control_sequence_end(seq, rest, from + 1);
    }
}

/// An escape sequence takes no column: wherever the walk stands, a control
/// sequence next in the text joins the line under way whole, and leaves the
/// column and the truncation as they are for the text behind it.
pub proof fn law_escape_sequence_takes_no_column(
    seq: Seq<char>,
    rest: Seq<char>,
    width: nat,
    no_wrap: bool,
    state: LineState,
)
    requires
        is_control_sequence(seq),
    ensures
        layout_from(seq + rest, 0, width, no_wrap, state) == layout_from(
            rest,
            0,
            width,
            no_wrap,
            LineState { line: state.line + seq, ..state },
        ),
{
    let text = seq + rest;
    assert(text[0] == ESCAPE);
    assert(text[1] == '[');
    lemma_control_sequence_end(seq, rest, 2);
    assert(escape_end(text, 0) == seq.len());
    assert(text.subrange(0, seq.len() as int) == seq);
    lemma_layout_shift(
        seq,
        rest,
        0,
        width,
        no_wrap,
        LineState { line: state.line + seq, ..state },
    );
}

/// A control sequence in front of a text joins the first line, and the text
/// behind it is laid out as it would be alone, whatever the width and the
/// policy.
pub proof fn law_leading_escape_sequence_joins_first_line(
    seq: Seq<char>,
    rest: Seq<char>,
    width: nat,
    no_wrap: bool,
)
    requires
        is_control_sequence(seq),
    ensures
        layout(seq + rest, width, no_wrap) == with_prefix(seq, layout(rest, width, no_wrap)),
{
    let w = usable_width(width);
    law_escape_sequence_takes_no_column(seq, rest, w, no_wrap, empty_line());
    lemma_layout_prefix(rest, 0, w, no_wrap, seq, empty_line());
    assert(seq + Seq::<char>::empty() == Seq::<char>::empty() + seq);
}

/// A colour sequence before plain text changes nothing in how the text
/// wraps: the lines are the pieces of the text, as many as its length
/// divided by the width, rounded up, with the sequence whole before the
/// first of them.
pub proof fn law_coloured_text_wraps_like_plain(seq: Seq<char>, plain: Seq<char>, width: nat)
    requires
        is_control_sequence(seq),
        single_column_text(plain),
    ensures
        layout(seq + plain, width, false) == with_prefix(
            seq,
            chunks(plain, usable_width(width)),
        ),
        layout(seq + plain, width, false).len() == if plain.len() == 0 {
            1
        } else {
            (plain.len() + usable_width(width) - 1) / (usable_width(width) as int)
        },
{
    law_leading_escape_sequence_joins_first_line(seq, plain, width, false);
    law_wrap_cuts_into_chunks(plain, width);
    law_chunk_count(plain, usable_width(width));
}

/// Text in which no escape sequence opens.
pub open spec fn escape_free(text: Seq<char>) -> bool {
    forall|i: int| 0 <= i < text.len() ==> #[trigger] text[i] != ESCAPE
}

proof fn lemma_newline_from(
    first: Seq<char>,
    rest: Seq<char>,
    at: int,
    width: nat,
    no_wrap: bool,
    state: LineState,
)
    requires
        escape_free(first),
        0 <= at <= first.len(),
    ensures
        layout_from(first + seq!['\n'] + rest, at, width, no_wrap, state) == layout_from(
            first,
            at,
            width,
            no_wrap,
            state,
        ) + layout_from(rest, 0, width, no_wrap, empty_line()),
    decreases first.len() - at,
{
    let text = first + seq!['\n'] + rest;
    let behind = layout_from(rest, 0, width, no_wrap, empty_line());
    if at == first.len() {
        assert(text[at] == '\n');
        lemma_layout_shift(first + seq!['\n'], rest, 0, width, no_wrap, empty_line());
    } else {
        let c = first[at];
        let columns = columns_of(c);
        assert(text[at] == c);
        if c == '\r' {
            lemma_newline_from(first, rest, at + 1, width, no_wrap, state);
        } else if c == '\n' {
            lemma_newline_from(first, rest, at + 1, width, no_wrap, empty_line());
            let ahead = layout_from(first, at + 1, width, no_wrap, empty_line());
            assert(seq![state.line] + (ahead + behind) == seq![state.line] + ahead + behind);
        } else if no_wrap && (state.truncated || state.col + columns > width) {
            lemma_newline_from(
                first,
                rest,
                at + 1,
                width,
                no_wrap,
                LineState { truncated: true, ..state },
            );
        } else if !no_wrap && state.col + columns > width {
            let next = LineState { line: seq![c], col: columns, truncated: state.truncated };
            lemma_newline_from(first, rest, at + 1, width, no_wrap, next);
            let ahead = layout_from(first, at + 1, width, no_wrap, next);
            assert(seq![state.line] + (ahead + behind) == seq![state.line] + ahead + behind);
        } else {
            let next = LineState {
                line: state.line.push(c),
                col: state.col + columns,
                truncated: state.truncated,
            };
            lemma_newline_from(first, rest, at + 1, width, no_wrap, next);
        }
    }
}

/// Each line of the text is laid out by itself: the lines of a text up to a
/// newline, where no escape sequence opens before it, are followed by the
/// lines of what stands behind the newline, laid out as if alone.
pub proof fn law_newline_parts_the_layout(
    first: Seq<char>,
    rest: Seq<char>,
    width: nat,
    no_wrap: bool,
)
    requires
        escape_free(first),
    ensures
        layout(first + seq!['\n'] + rest, width, no_wrap) == layout(first, width, no_wrap)
            + layout(rest, width, no_wrap),
{
    lemma_newline_from(first, rest, 0, usable_width(width), no_wrap, empty_line());
}

/// Truncation works line by line: of a first line of single-column
/// characters its first piece stays, and what stands behind the newline is
/// laid out anew.
pub proof fn law_truncation_is_per_line(first: Seq<char>, rest: Seq<char>, width: nat)
    requires
        single_column_text(first),
    ensures
        layout(first + seq!['\n'] + rest, width, true) == seq![
            first_chunk(first, usable_width(width)),
        ] + layout(rest, width, true),
{
    law_newline_parts_the_layout(first, rest, width, true);
    law_single_column_layout(first, width, true);
}

/// The visible part of the text from `at` on: the text with its escape
/// sequences left out.
pub open spec fn visible_from(text: Seq<char>, at: int) -> Seq<char>
    decreases text.len() - at,
    via visible_from_decreases
{
    if at < 0 || at >= text.len() {
        Seq::empty()
    } else if text[at] == ESCAPE {
        visible_from(text, escape_end(text, at))
    } else {
        seq![text[at]] + visible_from(text, at + 1)
    }
}

#[via_fn]
proof fn visible_from_decreases(text: Seq<char>, at: int) {
    if 0 <= at < text.len() {
        lemma_escape_end_bounds(text, at);
    }
}

/// The visible part of a text.
pub open spec fn visible(text: Seq<char>) -> Seq<char> {
    visible_from(text, 0)
}

/// The columns that a line takes on screen: those of its visible part.
pub open spec fn line_columns(line: Seq<char>) -> nat {
    text_columns(visible(line))
}

/// Every line takes `width` columns at most, its escape sequences left out
/// of the count.
pub open spec fn lines_fit(lines: Seq<Seq<char>>, width: nat) -> bool {
    forall|i: int| 0 <= i < lines.len() ==> line_columns(#[trigger] lines[i]) <= width
}

/// Whether a `[` stands at `at` or behind carriage returns that start there.
pub open spec fn bracket_behind_returns(text: Seq<char>, at: int) -> bool
    decreases text.len() - at,
{
    0 <= at < text.len() && (text[at] == '[' || (text[at] == '\r' && bracket_behind_returns(
        text,
        at + 1,
    )))
}

/// No opening character is parted from a `[` by carriage returns alone.
/// Where one is, dropping the carriage returns makes a control sequence on
/// screen out of what the walk took for single characters.
pub open spec fn escapes_unsplit(text: Seq<char>) -> bool {
    forall|i: int|
        0 <= i < text.len() - 1 && (#[trigger] text[i]) == ESCAPE && text[i + 1] == '\r'
            ==> !bracket_behind_returns(text, i + 1)
}

/// No character that the walk from `at` on takes for a character on its
/// own is wider than `width` columns.
pub open spec fn glyphs_fit_from(text: Seq<char>, at: int, width: nat) -> bool
    decreases text.len() - at,
    via glyphs_fit_decreases
{
    if at < 0 || at >= text.len() {
        true
    } else if text[at] == '\r' || text[at] == '\n' {
        glyphs_fit_from(text, at + 1, width)
    } else if text[at] == ESCAPE {
        glyphs_fit_from(text, escape_end(text, at), width)
    } else {
        columns_of(text[at]) <= width && glyphs_fit_from(text, at + 1, width)
    }
}

#[via_fn]
proof fn glyphs_fit_decreases(text: Seq<char>, at: int, width: nat) {
    if 0 <= at < text.len() {
        lemma_escape_end_bounds(text, at);
    }
}

proof fn lemma_visible_shift(front: Seq<char>, rest: Seq<char>, at: int)
    requires
        0 <= at <= rest.len(),
    ensures
        visible_from(front + rest, front.len() + at) == visible_from(rest, at),
    decreases rest.len() - at,
{
    if at < rest.len() {
        assert((front + rest)[front.len() + at] == rest[at]);
        if rest[at] == ESCAPE {
            lemma_escape_end_bounds(rest, at);
            lemma_escape_end_shift(front, rest, at);
            lemma_visible_shift(front, rest, escape_end(rest, at));
        } else {
            lemma_visible_shift(front, rest, at + 1);
        }
    }
}

/// An escape sequence taken from a text is invisible on its own.
proof fn lemma_piece_alone(text: Seq<char>, at: int)
    requires
        0 <= at < text.len(),
        text[at] == ESCAPE,
    ensures
        visible(text.subrange(at, escape_end(text, at))) == Seq::<char>::empty(),
{
    lemma_escape_end_bounds(text, at);
    let end = escape_end(text, at);
    let piece = text.subrange(at, end);
    assert(piece[0] == ESCAPE);
    if at + 1 < text.len() && text[at + 1] == '[' {
        lemma_sequence_end_scan(text, at + 2);
        assert(piece[1] == '[');
        assert forall|j: int| 2 <= j < piece.len() - 1 implies !is_final_char(
            #[trigger] piece[j],
        ) by {
            assert(piece[j] == text[at + j]);
        }
        if piece.len() > 2 {
            assert(piece[piece.len() - 1] == text[end - 1]);
        }
        lemma_sequence_end_found(piece, 2, piece.len() as int);
    }
    assert(escape_end(piece, 0) == piece.len());
    assert(visible_from(piece, piece.len() as int) == Seq::<char>::empty());
}

/// An escape sequence that ends within its text stays invisible before
/// what follows it on the line, unless it is the opening character alone
/// and a `[` follows.
proof fn lemma_piece_then(text: Seq<char>, at: int, more: Seq<char>)
    requires
        0 <= at < text.len(),
        text[at] == ESCAPE,
        escape_end(text, at) < text.len(),
        more.len() > 0,
        escape_end(text, at) == at + 1 ==> more[0] != '[',
    ensures
        visible(text.subrange(at, escape_end(text, at)) + more) == visible(more),
{
    let end = escape_end(text, at);
    let piece = text.subrange(at, end);
    let line = piece + more;
    lemma_escape_end_bounds(text, at);
    assert(line[0] == ESCAPE);
    if text[at + 1] == '[' {
        lemma_sequence_end_scan(text, at + 2);
        assert(line[1] == text[at + 1]);
        assert forall|j: int| 2 <= j < piece.len() - 1 implies !is_final_char(
            #[trigger] line[j],
        ) by {
            assert(line[j] == text[at + j]);
        }
        assert(line[piece.len() - 1] == text[end - 1]);
        lemma_sequence_end_found(line, 2, piece.len() as int);
    } else {
        assert(line[1] == more[0]);
    }
    assert(escape_end(line, 0) == piece.len());
    lemma_visible_shift(piece, more, 0);
}

/// What is seen of `line` with `more` behind it.
pub open spec fn seen_with(line: Seq<char>, more: Seq<char>) -> Seq<char> {
    visible(line + more)
}

/// Whether what joins `line` next is seen as it would be seen alone. After
/// an opening character alone (`open`), a `[` must not join.
pub open spec fn composable(line: Seq<char>, open: bool) -> bool {
    forall|more: Seq<char>|
        more.len() > 0 && (open ==> more[0] != '[') ==> #[trigger] seen_with(line, more)
            == visible(line) + visible(more)
}

proof fn lemma_glyph_then(c: char, more: Seq<char>)
    requires
        c != ESCAPE,
    ensures
        visible(seq![c] + more) == seq![c] + visible(more),
        visible(seq![c]) == seq![c],
{
    lemma_visible_shift(seq![c], more, 0);
    assert((seq![c] + more)[0] == c);
    assert(visible_from(seq![c], 1) == Seq::<char>::empty());
    assert(seq![c] + Seq::<char>::empty() == seq![c]);
}

proof fn lemma_empty_line_composable()
    ensures
        composable(Seq::empty(), false),
        line_columns(Seq::empty()) == 0,
{
    let empty = Seq::<char>::empty();
    assert forall|more: Seq<char>| more.len() > 0 implies #[trigger] seen_with(empty, more)
        == visible(empty) + visible(more) by {
        assert(empty + more == more);
        assert(empty + visible(more) == visible(more));
    }
}

/// A line stays composable when a character joins it that is seen.
proof fn lemma_glyph_joins(line: Seq<char>, open: bool, c: char)
    requires
        composable(line, open),
        c != ESCAPE,
        open ==> c != '[',
    ensures
        composable(line.push(c), false),
        line_columns(line.push(c)) == line_columns(line) + columns_of(c),
{
    let empty = Seq::<char>::empty();
    let longer = line.push(c);
    assert(longer == line + seq![c]);
    lemma_glyph_then(c, empty);
    assert(seen_with(line, seq![c]) == visible(line) + visible(seq![c]));
    assert(visible(longer) == visible(line).push(c));
    assert(visible(line).push(c).drop_last() == visible(line));
    assert forall|more: Seq<char>| more.len() > 0 implies #[trigger] seen_with(longer, more)
        == visible(longer) + visible(more) by {
        lemma_glyph_then(c, more);
        assert(longer + more == line + (seq![c] + more));
        assert((seq![c] + more)[0] == c);
        assert(seen_with(line, seq![c] + more) == visible(line) + visible(seq![c] + more));
        assert(visible(line) + (seq![c] + visible(more)) == visible(line).push(c) + visible(
            more,
        ));
    }
}

/// A line stays composable when an escape sequence joins it that ends
/// within the text, and its columns stay as they are in any case.
proof fn lemma_piece_joins(line: Seq<char>, open: bool, text: Seq<char>, at: int)
    requires
        composable(line, open),
        0 <= at < text.len(),
        text[at] == ESCAPE,
    ensures
        line_columns(line + text.subrange(at, escape_end(text, at))) == line_columns(line),
        escape_end(text, at) < text.len() ==> composable(
            line + text.subrange(at, escape_end(text, at)),
            escape_end(text, at) == at + 1,
        ),
{
    let empty = Seq::<char>::empty();
    lemma_escape_end_bounds(text, at);
    let end = escape_end(text, at);
    let piece = text.subrange(at, end);
    let longer = line + piece;
    lemma_piece_alone(text, at);
    assert(piece[0] == ESCAPE);
    assert(seen_with(line, piece) == visible(line) + visible(piece));
    assert(visible(line) + empty == visible(line));
    assert(visible(longer) == visible(line));
    if end < text.len() {
        let lone = end == at + 1;
        assert forall|more: Seq<char>|
            more.len() > 0 && (lone ==> more[0] != '[') implies #[trigger] seen_with(
            longer,
            more,
        ) == visible(longer) + visible(more) by {
            lemma_piece_then(text, at, more);
            assert(longer + more == line + (piece + more));
            assert((piece + more)[0] == ESCAPE);
            assert(seen_with(line, piece + more) == visible(line) + visible(piece + more));
        }
    }
}

proof fn lemma_lines_prepend(line: Seq<char>, rest: Seq<Seq<char>>, width: nat)
    requires
        line_columns(line) <= width,
        lines_fit(rest, width),
    ensures
        lines_fit(seq![line] + rest, width),
{
    let lines = seq![line] + rest;
    assert forall|i: int| 0 <= i < lines.len() implies line_columns(#[trigger] lines[i])
        <= width by {
        if i > 0 {
            assert(lines[i] == rest[i - 1]);
        }
    }
}

proof fn lemma_lines_fit_from(
    text: Seq<char>,
    at: int,
    width: nat,
    no_wrap: bool,
    state: LineState,
    open: bool,
)
    requires
        escapes_unsplit(text),
        no_wrap || glyphs_fit_from(text, at, width),
        0 <= at <= text.len(),
        line_columns(state.line) == state.col <= width,
        composable(state.line, open),
        open ==> (state.truncated && no_wrap) || !bracket_behind_returns(text, at),
    ensures
        lines_fit(layout_from(text, at, width, no_wrap, state), width),
    decreases text.len() - at,
{
    let lines = layout_from(text, at, width, no_wrap, state);
    if at >= text.len() {
        assert(lines[0] == state.line);
    } else {
        let c = text[at];
        let columns = columns_of(c);
        if c == '\r' {
            lemma_lines_fit_from(text, at + 1, width, no_wrap, state, open);
        } else if c == '\n' {
            lemma_empty_line_composable();
            lemma_lines_fit_from(text, at + 1, width, no_wrap, empty_line(), false);
            lemma_lines_prepend(
                state.line,
                layout_from(text, at + 1, width, no_wrap, empty_line()),
                width,
            );
        } else if c == ESCAPE {
            lemma_escape_end_bounds(text, at);
            let end = escape_end(text, at);
            let next = LineState { line: state.line + text.subrange(at, end), ..state };
            lemma_piece_joins(state.line, open, text, at);
            if end < text.len() {
                if text[at + 1] == '[' {
                    lemma_sequence_end_scan(text, at + 2);
                }
                assert(end == at + 1 ==> !bracket_behind_returns(text, at + 1));
                lemma_lines_fit_from(text, end, width, no_wrap, next, end == at + 1);
            } else {
                assert(layout_from(text, end, width, no_wrap, next) == seq![next.line]);
                assert(lines[0] == next.line);
            }
        } else if no_wrap && (state.truncated || state.col + columns > width) {
            lemma_lines_fit_from(
                text,
                at + 1,
                width,
                no_wrap,
                LineState { truncated: true, ..state },
                open,
            );
        } else if !no_wrap && state.col + columns > width {
            let next = LineState { line: seq![c], col: columns, truncated: state.truncated };
            lemma_empty_line_composable();
            lemma_glyph_joins(Seq::empty(), false, c);
            assert(Seq::<char>::empty().push(c) == seq![c]);
            lemma_lines_fit_from(text, at + 1, width, no_wrap, next, false);
            lemma_lines_prepend(state.line, layout_from(text, at + 1, width, no_wrap, next), width);
        } else {
            let next = LineState {
                line: state.line.push(c),
                col: state.col + columns,
                truncated: state.truncated,
            };
            lemma_glyph_joins(state.line, open, c);
            lemma_lines_fit_from(text, at + 1, width, no_wrap, next, false);
        }
    }
}

/// Where the cut of the text from `at` on falls when `col` columns are
/// taken: before the first character that does not fit, never within an
/// escape sequence.
pub open spec fn cut_end(text: Seq<char>, at: int, width: nat, col: nat) -> int
    decreases text.len() - at,
    via cut_end_decreases
{
    if at < 0 || at >= text.len() {
        text.len() as int
    } else if text[at] == ESCAPE {
        cut_end(text, escape_end(text, at), width, col)
    } else if col + columns_of(text[at]) > width {
        at
    } else {
        cut_end(text, at + 1, width, col + columns_of(text[at]))
    }
}

#[via_fn]
proof fn cut_end_decreases(text: Seq<char>, at: int, width: nat, col: nat) {
    if 0 <= at < text.len() {
        lemma_escape_end_bounds(text, at);
    }
}

proof fn lemma_cut_is_prefix(text: Seq<char>, at: int, width: nat, col: nat)
    requires
        0 <= at <= text.len(),
    ensures
        at <= cut_end(text, at, width, col) <= text.len(),
        truncated_from(text, at, width, col) == text.subrange(
            at,
            cut_end(text, at, width, col),
        ),
    decreases text.len() - at,
{
    let end = cut_end(text, at, width, col);
    if at < text.len() {
        if text[at] == ESCAPE {
            let behind = escape_end(text, at);
            lemma_escape_end_bounds(text, at);
            lemma_cut_is_prefix(text, behind, width, col);
            assert(text.subrange(at, behind) + text.subrange(behind, end) == text.subrange(
                at,
                end,
            ));
        } else if col + columns_of(text[at]) > width {
            assert(text.subrange(at, at) == Seq::<char>::empty());
        } else {
            lemma_cut_is_prefix(text, at + 1, width, col + columns_of(text[at]));
            assert(seq![text[at]] + text.subrange(at + 1, end) == text.subrange(at, end));
        }
    } else {
        assert(text.subrange(at, at) == Seq::<char>::empty());
    }
}

proof fn lemma_escape_end_in_prefix(text: Seq<char>, at: int, stop: int)
    requires
        0 <= at < stop <= text.len(),
        escape_end(text, at) <= stop,
    ensures
        escape_end(text.take(stop), at) == escape_end(text, at),
{
    let front = text.take(stop);
    let end = escape_end(text, at);
    assert(front[at] == text[at]);
    if at + 1 < text.len() && text[at + 1] == '[' {
        lemma_sequence_end_scan(text, at + 2);
        assert(front[at + 1] == '[');
        assert forall|j: int| at + 2 <= j < end - 1 implies !is_final_char(
            #[trigger] front[j],
        ) by {
            assert(front[j] == text[j]);
        }
        if at + 2 < end {
            assert(front[end - 1] == text[end - 1]);
        }
        lemma_sequence_end_found(front, at + 2, end);
    } else if at + 1 < stop {
        assert(front[at + 1] == text[at + 1]);
    }
}

proof fn lemma_columns_prepend(c: char, text: Seq<char>)
    ensures
        text_columns(seq![c] + text) == columns_of(c) + text_columns(text),
    decreases text.len(),
{
    let whole = seq![c] + text;
    if text.len() == 0 {
        assert(whole.drop_last() == Seq::<char>::empty());
        assert(text_columns(Seq::<char>::empty()) == 0);
        assert(whole.last() == c);
    } else {
        lemma_columns_prepend(c, text.drop_last());
        assert(whole.drop_last() == seq![c] + text.drop_last());
        assert(whole.last() == text.last());
    }
}

proof fn lemma_cut_fits(text: Seq<char>, at: int, width: nat, col: nat)
    requires
        0 <= at <= text.len(),
        col <= width,
    ensures
        col + text_columns(visible_from(text.take(cut_end(text, at, width, col)), at)) <= width,
    decreases text.len() - at,
{
    let end = cut_end(text, at, width, col);
    let front = text.take(end);
    lemma_cut_is_prefix(text, at, width, col);
    if at < end {
        assert(front[at] == text[at]);
        if text[at] == ESCAPE {
            let behind = escape_end(text, at);
            lemma_escape_end_bounds(text, at);
            lemma_cut_is_prefix(text, behind, width, col);
            lemma_escape_end_in_prefix(text, at, end);
            lemma_cut_fits(text, behind, width, col);
        } else {
            let columns = columns_of(text[at]);
            lemma_cut_fits(text, at + 1, width, col + columns);
            lemma_columns_prepend(text[at], visible_from(front, at + 1));
        }
    } else {
        assert(visible_from(front, at) == Seq::<char>::empty());
    }
}

/// The cut of a text keeps escape sequences whole and fits the width: what
/// is kept is a beginning of the text that ends where the walk stands
/// between two characters or sequences, and it takes `width` columns at
/// most, escape sequences left out of the count.
pub proof fn law_cut_fits_the_width(text: Seq<char>, width: nat)
    ensures
        truncated(text, width) == text.take(cut_end(text, 0, width, 0)),
        0 <= cut_end(text, 0, width, 0) <= text.len(),
        line_columns(truncated(text, width)) <= width,
{
    lemma_cut_is_prefix(text, 0, width, 0);
    lemma_cut_fits(text, 0, width, 0);
}

/// No line is wider than the terminal, escape sequences left out of the
/// count: the lines of a text take the usable width at most, under
/// truncation always, under wrapping where no single character is wider
/// than that. Left out are the texts in which carriage returns alone part
/// an opening character from a `[`.
pub proof fn law_lines_fit_the_width(text: Seq<char>, width: nat, no_wrap: bool)
    requires
        escapes_unsplit(text),
        no_wrap || glyphs_fit_from(text, 0, usable_width(width)),
    ensures
        lines_fit(layout(text, width, no_wrap), usable_width(width)),
{
    lemma_empty_line_composable();
    lemma_lines_fit_from(text, 0, usable_width(width), no_wrap, empty_line(), false);
}

} // verus!

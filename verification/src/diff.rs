//! Difference highlighting between two captures of the command's output.

use vstd::prelude::*;
use vstd::string::StringExecFns;

use crate::config::DifferencesMode;

verus! {

/// Marker that opens a highlighted run (reverse video).
pub const HIGHLIGHT_START: &'static str = "\x1b[7m";

/// Marker that closes a highlighted run (attributes reset).
pub const HIGHLIGHT_END: &'static str = "\x1b[0m";

/// How one piece of an alignment relates the two texts.
#[derive(Debug, Clone, Copy, PartialEq, Eq, Structural)]
pub enum ChangeTag {
    /// Present in both texts.
    Equal,
    /// Present only in the current text.
    Insert,
    /// Present only in the base text.
    Delete,
}

/// One piece of an alignment of two texts.
#[derive(Debug, Clone, PartialEq, Eq)]
pub struct DiffChange {
    pub tag: ChangeTag,
    pub value: String,
}

/// An alignment as a mathematical sequence of tagged pieces.
pub type Alignment = Seq<(ChangeTag, Seq<char>)>;

/// The alignment held by a vector of changes.
pub open spec fn alignment_of(changes: Seq<DiffChange>) -> Alignment {
    Seq::new(changes.len(), |i: int| (changes[i].tag, changes[i].value@))
}

/// The pieces of `al` whose tag satisfies `keep`, concatenated in order.
pub open spec fn side(al: Alignment, keep: spec_fn(ChangeTag) -> bool) -> Seq<char>
    decreases al.len(),
{
    if al.len() == 0 {
        Seq::empty()
    } else if keep(al.last().0) {
        side(al.drop_last(), keep) + al.last().1
    } else {
        side(al.drop_last(), keep)
    }
}

/// The text an alignment starts from: its equal and deleted pieces.
pub open spec fn base_side(al: Alignment) -> Seq<char> {
    side(al, |t: ChangeTag| t != ChangeTag::Insert)
}

/// The text an alignment arrives at: its equal and inserted pieces.
pub open spec fn current_side(al: Alignment) -> Seq<char> {
    side(al, |t: ChangeTag| t != ChangeTag::Delete)
}

/// The text both sides share: the equal pieces alone.
pub open spec fn kept(al: Alignment) -> Seq<char> {
    side(al, |t: ChangeTag| t == ChangeTag::Equal)
}

/// Every piece of `al` is an equal piece.
pub open spec fn all_equal(al: Alignment) -> bool {
    forall|i: int| 0 <= i < al.len() ==> (#[trigger] al[i]).0 == ChangeTag::Equal
}

/// `al` takes `base` to `current`, and marks nothing when the two are the
/// same text.
pub open spec fn is_diff_of(al: Alignment, base: Seq<char>, current: Seq<char>) -> bool {
    &&& base_side(al) == base
    &&& current_side(al) == current
    &&& base == current ==> all_equal(al)
}

/// The character-level alignment that the diff algorithm computes for two
/// texts.
pub uninterp spec fn char_alignment(base: Seq<char>, current: Seq<char>) -> Seq<(ChangeTag, Seq<char>)>;

/// The displayed text for `current` against `base`.
pub open spec fn highlighted(base: Seq<char>, current: Seq<char>) -> Seq<char> {
    rendered(char_alignment(base, current))
}

/// Whether the piece at `at` is an inserted piece; there is none outside
/// the alignment.
pub open spec fn inserted_at(al: Alignment, at: int) -> bool {
    0 <= at < al.len() && al[at].0 == ChangeTag::Insert
}

/// What the piece at `at` contributes to a text in which `start` and `end`
/// mark what is new: equal text verbatim, deleted text nothing, inserted
/// text itself, behind `start` where it opens a run of inserted pieces and
/// before `end` where it closes one.
pub open spec fn marked_piece(al: Alignment, at: int, start: Seq<char>, end: Seq<char>) -> Seq<
    char,
> {
    match al[at].0 {
        ChangeTag::Equal => al[at].1,
        ChangeTag::Delete => Seq::empty(),
        ChangeTag::Insert => (if inserted_at(al, at - 1) {
            Seq::empty()
        } else {
            start
        }) + al[at].1 + (if inserted_at(al, at + 1) {
            Seq::empty()
        } else {
            end
        }),
    }
}

/// What the first `count` pieces of an alignment contribute, in order.
pub open spec fn marked_upto(al: Alignment, count: int, start: Seq<char>, end: Seq<char>) -> Seq<
    char,
>
    decreases count,
{
    if count <= 0 {
        Seq::empty()
    } else {
        marked_upto(al, count - 1, start, end) + marked_piece(al, count - 1, start, end)
    }
}

/// The pieces of an alignment in order, each run of inserted pieces
/// between one `start` and one `end`.
pub open spec fn marked(al: Alignment, start: Seq<char>, end: Seq<char>) -> Seq<char> {
    marked_upto(al, al.len() as int, start, end)
}

/// The displayed text of an alignment: each run of what is new stands
/// between the two highlight markers.
pub open spec fn rendered(al: Alignment) -> Seq<char> {
    marked(al, HIGHLIGHT_START@, HIGHLIGHT_END@)
}

fn is_insert(tag: ChangeTag) -> (yes: bool)
    ensures
        yes == (tag == ChangeTag::Insert),
{
    match tag {
        ChangeTag::Insert => true,
        _ => false,
    }
}

/// Walks an alignment in order and builds the displayed text: equal runs are
/// copied, each run of inserted pieces is wrapped in one pair of highlight
/// markers, deleted runs are dropped.
pub fn render_changes(changes: &Vec<DiffChange>) -> (out: String)
    ensures
        out@ == rendered(alignment_of(changes@)),
{
    let ghost al = alignment_of(changes@);
    let mut out = String::new();
    let mut i: usize = 0;
    while i < changes.len()
        invariant
            i <= changes.len(),
            al == alignment_of(changes@),
            out@ == marked_upto(al, i as int, HIGHLIGHT_START@, HIGHLIGHT_END@),
        decreases changes.len() - i,
    {
        let ghost before = out@;
        let ghost value = changes[i as int].value@;
        match changes[i].tag {
            ChangeTag::Equal => {
                out.append(changes[i].value.as_str());
            },
            ChangeTag::Insert => {
                let opens = i == 0 || !is_insert(changes[i - 1].tag);
                let closes = i + 1 == changes.len() || !is_insert(changes[i + 1].tag);
                if opens {
                    out.append(HIGHLIGHT_START);
                }
                out.append(changes[i].value.as_str());
                if closes {
                    out.append(HIGHLIGHT_END);
                }
                proof {
                    let start = if opens {
                        HIGHLIGHT_START@
                    } else {
                        Seq::empty()
                    };
                    let end = if closes {
                        HIGHLIGHT_END@
                    } else {
                        Seq::empty()
                    };
                    assert(out@ == before + (start + value + end));
                }
            },
            ChangeTag::Delete => {
                assert(before + Seq::<char>::empty() == before);
            },
        }
        i += 1;
    }
    out
}

/// `similar::TextDiff::from_chars` and `TextDiff::iter_all_changes`, with
/// each change copied into a `DiffChange`. Trusted: the changes are a function
/// of the two texts alone; the equal and deleted values spell `base`, the
/// equal and inserted values spell `current`, both in order; and two identical
/// texts give equal changes only (their whole length is a common prefix).
#[verifier::external_body]
fn diff_chars(base: &str, current: &str) -> (changes: Vec<DiffChange>)
    ensures
        alignment_of(changes@) == char_alignment(base@, current@),
        is_diff_of(alignment_of(changes@), base@, current@),
{
    let diff = similar::TextDiff::from_chars(base, current);
    let mut changes = Vec::new();
    for change in diff.iter_all_changes() {
        let tag = match change.tag() {
            similar::ChangeTag::Equal => ChangeTag::Equal,
            similar::ChangeTag::Insert => ChangeTag::Insert,
            similar::ChangeTag::Delete => ChangeTag::Delete,
        };
        changes.push(DiffChange { tag, value: change.value().to_string() });
    }
    changes
}

/// The current text with everything that is new relative to `base` wrapped in
/// the highlight markers. Text that only `base` holds is not shown.
pub fn highlight_diff(base: &str, current: &str) -> (out: String)
    ensures
        out@ == highlighted(base@, current@),
        is_diff_of(char_alignment(base@, current@), base@, current@),
        base@ == current@ ==> out@ == current@,
{
    let changes = diff_chars(base, current);
    proof {
        if base@ == current@ {
            law_equal_pieces_render_verbatim(alignment_of(changes@));
        }
    }
    render_changes(&changes)
}

/// `part` can be had from `whole` by deleting characters.
pub open spec fn is_subsequence(part: Seq<char>, whole: Seq<char>) -> bool
    decreases whole.len(),
{
    part.len() == 0 || (whole.len() > 0 && ((part.last() == whole.last() && is_subsequence(
        part.drop_last(),
        whole.drop_last(),
    )) || is_subsequence(part, whole.drop_last())))
}

proof fn lemma_subsequence_extend(part: Seq<char>, whole: Seq<char>, more: Seq<char>)
    requires
        is_subsequence(part, whole),
    ensures
        is_subsequence(part + more, whole + more),
        is_subsequence(part, whole + more),
    decreases more.len(),
{
    if more.len() == 0 {
        assert(part + more == part);
        assert(whole + more == whole);
    } else {
        lemma_subsequence_extend(part, whole, more.drop_last());
        assert((part + more).drop_last() == part + more.drop_last());
        assert((whole + more).drop_last() == whole + more.drop_last());
        assert((part + more).last() == (whole + more).last());
    }
}

/// The text shown outside the markers is shared by both texts: the equal
/// pieces of any alignment, in order, can be had from its base side and from
/// its current side by deleting characters.
pub proof fn law_unmarked_text_is_common(al: Alignment)
    ensures
        is_subsequence(kept(al), base_side(al)),
        is_subsequence(kept(al), current_side(al)),
    decreases al.len(),
{
    if al.len() > 0 {
        let rest = al.drop_last();
        let value = al.last().1;
        law_unmarked_text_is_common(rest);
        match al.last().0 {
            ChangeTag::Equal => {
                lemma_subsequence_extend(kept(rest), base_side(rest), value);
                lemma_subsequence_extend(kept(rest), current_side(rest), value);
            },
            ChangeTag::Insert => {
                lemma_subsequence_extend(kept(rest), current_side(rest), value);
            },
            ChangeTag::Delete => {
                lemma_subsequence_extend(kept(rest), base_side(rest), value);
            },
        }
    }
}

proof fn lemma_unmarked_upto(al: Alignment, count: int)
    requires
        0 <= count <= al.len(),
    ensures
        marked_upto(al, count, Seq::empty(), Seq::empty()) == current_side(al.take(count)),
    decreases count,
{
    if count > 0 {
        lemma_unmarked_upto(al, count - 1);
        let value = al[count - 1].1;
        let rest = current_side(al.take(count - 1));
        assert(al.take(count).drop_last() == al.take(count - 1));
        assert(al.take(count).last() == al[count - 1]);
        assert(Seq::<char>::empty() + value + Seq::<char>::empty() == value);
        assert(rest + Seq::<char>::empty() == rest);
    }
}

/// The markers are all that is added to the current text: with empty
/// markers, what is displayed is the current side of the alignment.
pub proof fn law_markers_wrap_the_current_text(al: Alignment)
    ensures
        marked(al, Seq::empty(), Seq::empty()) == current_side(al),
{
    lemma_unmarked_upto(al, al.len() as int);
    assert(al.take(al.len() as int) == al);
}

proof fn lemma_equal_upto(al: Alignment, count: int, start: Seq<char>, end: Seq<char>)
    requires
        all_equal(al),
        0 <= count <= al.len(),
    ensures
        marked_upto(al, count, start, end) == kept(al.take(count)),
        kept(al.take(count)) == current_side(al.take(count)),
        kept(al.take(count)) == base_side(al.take(count)),
    decreases count,
{
    if count > 0 {
        lemma_equal_upto(al, count - 1, start, end);
        assert(al.take(count).drop_last() == al.take(count - 1));
        assert(al.take(count).last() == al[count - 1]);
    }
}

/// An alignment of equal pieces only is displayed as the text itself, with no
/// marker added.
pub proof fn law_equal_pieces_render_verbatim(al: Alignment)
    requires
        all_equal(al),
    ensures
        rendered(al) == current_side(al),
        rendered(al) == base_side(al),
        rendered(al) == kept(al),
{
    lemma_equal_upto(al, al.len() as int, HIGHLIGHT_START@, HIGHLIGHT_END@);
    assert(al.take(al.len() as int) == al);
}

/// Every piece of `al` is an inserted piece.
pub open spec fn all_inserted(al: Alignment) -> bool {
    forall|i: int| 0 <= i < al.len() ==> (#[trigger] al[i]).0 == ChangeTag::Insert
}

proof fn lemma_run_upto(al: Alignment, count: int, start: Seq<char>, end: Seq<char>)
    requires
        all_inserted(al),
        0 < count <= al.len(),
    ensures
        marked_upto(al, count, start, end) == start + current_side(al.take(count)) + (if count
            == al.len() {
            end
        } else {
            Seq::empty()
        }),
    decreases count,
{
    let value = al[count - 1].1;
    let last = if count == al.len() {
        end
    } else {
        Seq::empty()
    };
    let empty = Seq::<char>::empty();
    assert(al.take(count).drop_last() == al.take(count - 1));
    assert(al.take(count).last() == al[count - 1]);
    assert(al[count - 1].0 == ChangeTag::Insert);
    assert(inserted_at(al, count) == (count < al.len()));
    if count > 1 {
        lemma_run_upto(al, count - 1, start, end);
        let shown = current_side(al.take(count - 1));
        assert(al[count - 2].0 == ChangeTag::Insert);
        assert(inserted_at(al, count - 2));
        assert(marked_piece(al, count - 1, start, end) == empty + value + last);
        assert(current_side(al.take(count)) == shown + value);
        assert(start + shown + empty + (empty + value + last) =~= start + (shown + value) + last);
    } else {
        assert(!inserted_at(al, count - 2));
        assert(marked_piece(al, 0, start, end) == start + value + last);
        assert(current_side(al.take(0)) == empty);
        assert(current_side(al.take(1)) == empty + value);
        assert(marked_upto(al, 0, start, end) == empty);
        assert(empty + (start + value + last) =~= start + (empty + value) + last);
    }
}

/// A run of inserted pieces is wrapped once: an alignment of inserted
/// pieces only is displayed as one opening marker, the text, and one
/// closing marker, however many pieces the text comes in.
pub proof fn law_inserted_run_is_wrapped_once(al: Alignment, start: Seq<char>, end: Seq<char>)
    requires
        al.len() > 0,
        all_inserted(al),
    ensures
        marked(al, start, end) == start + current_side(al) + end,
{
    lemma_run_upto(al, al.len() as int, start, end);
    assert(al.take(al.len() as int) == al);
}

/// What `DiffState` remembers, as mathematical values.
pub struct Captures {
    /// The most recent capture, if any was taken.
    pub previous: Option<Seq<char>>,
    /// The first capture taken in permanent mode, if any was.
    pub baseline: Option<Seq<char>>,
}

/// The captures before anything was applied.
pub open spec fn no_captures() -> Captures {
    Captures { previous: None, baseline: None }
}

/// Whether `current` differs from the capture taken just before it.
pub open spec fn changed_spec(state: Captures, current: Seq<char>) -> bool {
    match state.previous {
        Some(previous) => previous != current,
        None => false,
    }
}

/// The text shown for `current` under `mode`.
pub open spec fn display_text(
    state: Captures,
    current: Seq<char>,
    mode: Option<DifferencesMode>,
) -> Seq<char> {
    match mode {
        None => current,
        Some(DifferencesMode::Changes) => match state.previous {
            Some(previous) => highlighted(previous, current),
            None => current,
        },
        Some(DifferencesMode::Permanent) => match state.baseline {
            Some(baseline) => highlighted(baseline, current),
            None => current,
        },
    }
}

/// The capture that `mode` compares a new one against, if there is one.
pub open spec fn compared_against(state: Captures, mode: Option<DifferencesMode>) -> Option<
    Seq<char>,
> {
    match mode {
        None => None,
        Some(DifferencesMode::Changes) => state.previous,
        Some(DifferencesMode::Permanent) => state.baseline,
    }
}

/// The captures remembered once `current` was applied under `mode`.
pub open spec fn next_captures(
    state: Captures,
    current: Seq<char>,
    mode: Option<DifferencesMode>,
) -> Captures {
    Captures {
        previous: Some(current),
        baseline: if mode == Some(DifferencesMode::Permanent) && state.baseline is None {
            Some(current)
        } else {
            state.baseline
        },
    }
}

/// The captures remembered after a series of calls, oldest first.
pub open spec fn captures_after(
    state: Captures,
    calls: Seq<(Seq<char>, Option<DifferencesMode>)>,
) -> Captures
    decreases calls.len(),
{
    if calls.len() == 0 {
        state
    } else {
        next_captures(captures_after(state, calls.drop_last()), calls.last().0, calls.last().1)
    }
}

/// The rolling previous capture and the fixed baseline capture.
#[derive(Debug, Clone)]
pub struct DiffState {
    previous: Option<String>,
    baseline: Option<String>,
}

/// One capture prepared for display.
#[derive(Debug, Clone, PartialEq, Eq)]
pub struct DiffResult {
    /// The capture, with highlight markers where the mode asks for them.
    pub text: String,
    /// Whether the capture differs from the one just before it.
    pub changed: bool,
}

impl View for DiffState {
    type V = Captures;

    closed spec fn view(&self) -> Captures {
        Captures {
            previous: match self.previous {
                Some(s) => Some(s@),
                None => None,
            },
            baseline: match self.baseline {
                Some(s) => Some(s@),
                None => None,
            },
        }
    }
}

impl Default for DiffState {
    fn default() -> (state: Self)
        ensures
            state@ == no_captures(),
    {
        DiffState { previous: None, baseline: None }
    }
}

impl DiffState {
    /// A state that has seen no capture yet.
    pub fn new() -> (state: Self)
        ensures
            state@ == no_captures(),
    {
        DiffState { previous: None, baseline: None }
    }

    /// Takes in one capture: reports whether it differs from the one before,
    /// prepares the text to show under `mode`, and remembers the capture as
    /// the new previous one. Permanent mode fixes the baseline on its first
    /// capture and compares against it from then on.
    pub fn apply(&mut self, current: &str, mode: Option<DifferencesMode>) -> (result: DiffResult)
        ensures
            result.changed == changed_spec(old(self)@, current@),
            result.text@ == display_text(old(self)@, current@, mode),
            final(self)@ == next_captures(old(self)@, current@, mode),
            old(self)@.previous is None ==> !result.changed,
            compared_against(old(self)@, mode) == Some(current@) ==> result.text@ == current@,
    {
        let capture: String = current.to_owned();
        let changed = match &self.previous {
            Some(previous) => !(*previous == capture),
            None => false,
        };
        let text = match mode {
            None => current.to_owned(),
            Some(DifferencesMode::Changes) => match &self.previous {
                Some(previous) => highlight_diff(previous.as_str(), current),
                None => current.to_owned(),
            },
            Some(DifferencesMode::Permanent) => {
                let against_baseline = match &self.baseline {
                    Some(baseline) => Some(highlight_diff(baseline.as_str(), current)),
                    None => None,
                };
                match against_baseline {
                    Some(text) => text,
                    None => {
                        self.baseline = Some(current.to_owned());
                        current.to_owned()
                    },
                }
            },
        };
        self.previous = Some(capture);
        DiffResult { text, changed }
    }
}

/// The first capture ever applied is never reported as changed, whatever it
/// holds and whatever the mode.
pub proof fn law_first_capture_unchanged(current: Seq<char>)
    ensures
        !changed_spec(no_captures(), current),
{
}

/// Once a baseline is held, no later call replaces it, whatever the captures
/// and modes of those calls, while the previous capture follows the calls.
pub proof fn law_baseline_never_changes(
    state: Captures,
    calls: Seq<(Seq<char>, Option<DifferencesMode>)>,
)
    requires
        state.baseline is Some,
    ensures
        captures_after(state, calls).baseline == state.baseline,
        calls.len() > 0 ==> captures_after(state, calls).previous == Some(calls.last().0),
    decreases calls.len(),
{
    if calls.len() > 0 {
        law_baseline_never_changes(state, calls.drop_last());
    }
}

/// In permanent mode the first capture becomes the baseline, and stays the
/// baseline through every later call.
pub proof fn law_permanent_baseline_is_first_capture(
    first: Seq<char>,
    calls: Seq<(Seq<char>, Option<DifferencesMode>)>,
)
    ensures
        captures_after(
            next_captures(no_captures(), first, Some(DifferencesMode::Permanent)),
            calls,
        ).baseline == Some(first),
{
    law_baseline_never_changes(
        next_captures(no_captures(), first, Some(DifferencesMode::Permanent)),
        calls,
    );
}

} // verus!

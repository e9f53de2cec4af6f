//! Character-level helpers shared by the parsers and the layout engine.

use vstd::prelude::*;
use vstd::string::StringExecFns;

verus! {

/// `String::push` of the standard library: the character is appended to the
/// end of the string and nothing else changes.
pub assume_specification[ String::push ](s: &mut String, c: char)
    ensures
        final(s)@ == old(s)@.push(c),
;

/// The characters of `s`, in order.
pub fn chars_of(s: &str) -> (out: Vec<char>)
    ensures
        out@ == s@,
{
    let mut out: Vec<char> = Vec::new();
    for c in it: s.chars()
        invariant
            out@ == it.seq().take(it.index() as int),
            it.seq() == s@,
    {
        out.push(c);
    }
    out
}

/// Appends the characters of `text` from `from` up to `to` to `out`.
pub(crate) fn push_range(out: &mut String, text: &[char], from: usize, to: usize)
    requires
        from <= to <= text.len(),
    ensures
        final(out)@ == old(out)@ + text@.subrange(from as int, to as int),
{
    let mut at: usize = from;
    while at < to
        invariant
            from <= at <= to <= text.len(),
            out@ == old(out)@ + text@.subrange(from as int, at as int),
        decreases to - at,
    {
        out.push(text[at]);
        at += 1;
        assert(text@.subrange(from as int, at as int) == text@.subrange(from as int, at - 1).push(
            text@[at - 1],
        ));
    }
}

/// The texts that a sequence of strings holds.
pub open spec fn texts_of(strings: Seq<String>) -> Seq<Seq<char>> {
    Seq::new(strings.len(), |i: int| strings[i]@)
}

/// The parts in order, with `sep` between each two.
pub open spec fn joined(parts: Seq<Seq<char>>, sep: Seq<char>) -> Seq<char>
    decreases parts.len(),
{
    if parts.len() == 0 {
        Seq::empty()
    } else if parts.len() == 1 {
        parts[0]
    } else {
        joined(parts.drop_last(), sep) + sep + parts.last()
    }
}

/// Printable parts joined by a printable separator are printable.
pub proof fn lemma_joined_printable(parts: Seq<Seq<char>>, sep: Seq<char>)
    requires
        forall|i: int| 0 <= i < parts.len() ==> is_printable_ascii(#[trigger] parts[i]),
        is_printable_ascii(sep),
    ensures
        is_printable_ascii(joined(parts, sep)),
    decreases parts.len(),
{
    if parts.len() > 1 {
        lemma_joined_printable(parts.drop_last(), sep);
        assert(is_printable_ascii(parts.last()));
    } else if parts.len() == 1 {
        assert(is_printable_ascii(parts[0]));
    }
}

/// Joins the parts with `sep` between each two.
pub fn join(parts: &[String], sep: &str) -> (out: String)
    ensures
        out@ == joined(texts_of(parts@), sep@),
{
    let ghost texts = texts_of(parts@);
    let mut out = String::new();
    let mut i: usize = 0;
    while i < parts.len()
        invariant
            i <= parts.len(),
            texts == texts_of(parts@),
            out@ == joined(texts.take(i as int), sep@),
        decreases parts.len() - i,
    {
        proof {
            assert(texts.take(i + 1).drop_last() == texts.take(i as int));
            assert(texts.take(i + 1).last() == parts@[i as int]@);
            if i == 0 {
                assert(texts.take(1)[0] == parts@[0]@);
                assert(out@ + parts@[0]@ == parts@[0]@);
            }
        }
        if i > 0 {
            out.append(sep);
        }
        out.append(parts[i].as_str());
        i += 1;
    }
    proof {
        assert(texts.take(parts.len() as int) == texts);
    }
    out
}

/// `count` spaces.
pub open spec fn spaces(count: nat) -> Seq<char> {
    Seq::new(count, |i: int| ' ')
}

/// Appends `count` spaces to `out`.
pub fn push_spaces(out: &mut String, count: usize)
    ensures
        final(out)@ == old(out)@ + spaces(count as nat),
{
    let mut done: usize = 0;
    while done < count
        invariant
            done <= count,
            out@ == old(out)@ + spaces(done as nat),
        decreases count - done,
    {
        out.push(' ');
        done += 1;
        assert(spaces(done as nat) == spaces((done - 1) as nat).push(' '));
    }
}

/// The characters with the Unicode property White_Space.
pub open spec fn is_space(c: char) -> bool {
    ||| '\u{9}' <= c <= '\u{d}'
    ||| c == ' '
    ||| c == '\u{85}'
    ||| c == '\u{a0}'
    ||| c == '\u{1680}'
    ||| '\u{2000}' <= c <= '\u{200a}'
    ||| c == '\u{2028}'
    ||| c == '\u{2029}'
    ||| c == '\u{202f}'
    ||| c == '\u{205f}'
    ||| c == '\u{3000}'
}

/// Whether `c` has the Unicode property White_Space.
pub fn is_space_char(c: char) -> (yes: bool)
    ensures
        yes == is_space(c),
{
    ('\u{9}' <= c && c <= '\u{d}') || c == ' ' || c == '\u{85}' || c == '\u{a0}' || c
        == '\u{1680}' || ('\u{2000}' <= c && c <= '\u{200a}') || c == '\u{2028}' || c
        == '\u{2029}' || c == '\u{202f}' || c == '\u{205f}' || c == '\u{3000}'
}

/// The first position at or after `from` that holds no white space.
pub open spec fn skip_space(text: Seq<char>, from: int) -> int
    decreases text.len() - from,
{
    if 0 <= from < text.len() && is_space(text[from]) {
        skip_space(text, from + 1)
    } else {
        from
    }
}

/// The position behind the last character before `end` that is no white
/// space and not before `start`.
pub open spec fn skip_space_back(text: Seq<char>, start: int, end: int) -> int
    decreases end - start,
{
    if start < end <= text.len() && is_space(text[end - 1]) {
        skip_space_back(text, start, end - 1)
    } else {
        end
    }
}

/// Where the text without its leading white space starts.
pub open spec fn trim_start(text: Seq<char>) -> int {
    skip_space(text, 0)
}

/// Where the text without its trailing white space ends.
pub open spec fn trim_end(text: Seq<char>) -> int {
    skip_space_back(text, trim_start(text), text.len() as int)
}

/// The text without leading and trailing white space.
pub open spec fn trimmed(text: Seq<char>) -> Seq<char> {
    text.subrange(trim_start(text), trim_end(text))
}

/// Finds the part of `text` that is left when leading and trailing white
/// space is taken away.
pub fn trim_bounds(text: &[char]) -> (bounds: (usize, usize))
    ensures
        bounds.0 == trim_start(text@),
        bounds.1 == trim_end(text@),
        bounds.0 <= bounds.1 <= text.len(),
{
    let mut start: usize = 0;
    while start < text.len() && is_space_char(text[start])
        invariant
            start <= text.len(),
            skip_space(text@, 0) == skip_space(text@, start as int),
        decreases text.len() - start,
    {
        start += 1;
    }
    let mut end: usize = text.len();
    while start < end && is_space_char(text[end - 1])
        invariant
            start <= end <= text.len(),
            skip_space_back(text@, start as int, text.len() as int) == skip_space_back(
                text@,
                start as int,
                end as int,
            ),
        decreases end,
    {
        end -= 1;
    }
    (start, end)
}

/// Text of printable ASCII characters only: from the space to the tilde.
pub open spec fn is_printable_ascii(text: Seq<char>) -> bool {
    forall|i: int| 0 <= i < text.len() ==> ' ' <= #[trigger] text[i] <= '~'
}

/// The lower-case form of an ASCII capital; any other character itself.
pub open spec fn ascii_lower(c: char) -> char {
    if 'A' <= c <= 'Z' {
        (c as u8 + 32) as u8 as char
    } else {
        c
    }
}

/// The lower-case form of an ASCII capital; any other character itself.
pub fn to_ascii_lower(c: char) -> (lower: char)
    ensures
        lower == ascii_lower(c),
{
    if 'A' <= c && c <= 'Z' {
        (c as u8 + 32) as char
    } else {
        c
    }
}

/// Two texts that differ at most in the case of ASCII letters.
pub open spec fn same_ignoring_case(a: Seq<char>, b: Seq<char>) -> bool {
    a.len() == b.len() && forall|i: int|
        0 <= i < a.len() ==> ascii_lower(#[trigger] a[i]) == ascii_lower(b[i])
}

/// Whether the characters of `text` from `from` up to `to` spell `word`,
/// the case of ASCII letters aside.
pub(crate) fn spells_ignoring_case(text: &[char], from: usize, to: usize, word: &str) -> (yes: bool)
    requires
        from <= to <= text.len(),
    ensures
        yes == same_ignoring_case(text@.subrange(from as int, to as int), word@),
{
    let letters = chars_of(word);
    if letters.len() != to - from {
        return false;
    }
    let mut i: usize = 0;
    while i < letters.len()
        invariant
            i <= letters.len() == to - from,
            to <= text.len(),
            letters@ == word@,
            forall|j: int|
                0 <= j < i ==> ascii_lower(
                    #[trigger] text@.subrange(from as int, to as int)[j],
                ) == ascii_lower(letters@[j]),
        decreases letters.len() - i,
    {
        assert(text@.subrange(from as int, to as int)[i as int] == text@[from + i]);
        if to_ascii_lower(text[from + i]) != to_ascii_lower(letters[i]) {
            return false;
        }
        i += 1;
    }
    true
}

/// Whether `text` begins with `word`.
pub fn has_prefix(text: &[char], word: &str) -> (yes: bool)
    ensures
        yes == word@.is_prefix_of(text@),
{
    let letters = chars_of(word);
    if letters.len() > text.len() {
        return false;
    }
    let mut i: usize = 0;
    while i < letters.len()
        invariant
            i <= letters.len() <= text.len(),
            letters@ == word@,
            forall|j: int| 0 <= j < i ==> text@[j] == letters@[j],
        decreases letters.len() - i,
    {
        if text[i] != letters[i] {
            assert(text@.subrange(0, letters.len() as int)[i as int] != word@[i as int]);
            return false;
        }
        i += 1;
    }
    assert(word@ =~= text@.subrange(0, word@.len() as int));
    true
}

/// Whether `c` is one of the ten decimal digits.
pub open spec fn is_digit(c: char) -> bool {
    '0' <= c <= '9'
}

/// Every character of `text` is a decimal digit.
pub open spec fn all_digits(text: Seq<char>) -> bool {
    forall|i: int| 0 <= i < text.len() ==> is_digit(#[trigger] text[i])
}

/// The number that a decimal digit stands for.
pub open spec fn digit_value(c: char) -> nat {
    (c as u32 - 48) as nat
}

/// The number that a run of decimal digits spells; the empty run spells 0.
pub open spec fn digits_value(digits: Seq<char>) -> nat
    decreases digits.len(),
{
    if digits.len() == 0 {
        0
    } else {
        digits_value(digits.drop_last()) * 10 + digit_value(digits.last())
    }
}

/// A run of digits spells a number below ten to the power of its length.
pub proof fn lemma_digits_below_power(digits: Seq<char>)
    requires
        all_digits(digits),
    ensures
        digits_value(digits) < pow10(digits.len()),
    decreases digits.len(),
{
    if digits.len() > 0 {
        let front = digits.drop_last();
        assert(is_digit(digits.last()));
        assert forall|i: int| 0 <= i < front.len() implies is_digit(#[trigger] front[i]) by {
            assert(front[i] == digits[i]);
        }
        lemma_digits_below_power(front);
    }
}

/// A run of digits that opens with a digit other than zero spells a number
/// of at least ten to the power of its length less one.
pub proof fn lemma_digits_reach_power(digits: Seq<char>)
    requires
        all_digits(digits),
        digits.len() >= 1,
        digits[0] != '0',
    ensures
        digits_value(digits) >= pow10((digits.len() - 1) as nat),
    decreases digits.len(),
{
    let front = digits.drop_last();
    assert(is_digit(digits.last()));
    if digits.len() > 1 {
        assert forall|i: int| 0 <= i < front.len() implies is_digit(#[trigger] front[i]) by {
            assert(front[i] == digits[i]);
        }
        assert(front[0] == digits[0]);
        lemma_digits_reach_power(front);
    } else {
        assert(is_digit(digits[0]));
        assert(digits_value(front) == 0);
        assert(pow10(0) == 1);
    }
}

/// Zeros in front of a numeral do not change its value.
pub proof fn lemma_leading_zeros(digits: Seq<char>, count: int)
    requires
        0 <= count <= digits.len(),
        forall|i: int| 0 <= i < count ==> digits[i] == '0',
    ensures
        digits_value(digits) == digits_value(digits.skip(count)),
    decreases digits.len(),
{
    if digits.len() > 0 {
        let front = digits.drop_last();
        if count == digits.len() {
            lemma_leading_zeros(front, count - 1);
            assert(front.skip(count - 1).len() == 0);
            assert(digits.skip(count).len() == 0);
            assert(digit_value('0') == 0);
        } else {
            lemma_leading_zeros(front, count);
            assert(digits.skip(count).drop_last() == front.skip(count));
            assert(digits.skip(count).last() == digits.last());
        }
    } else {
        assert(digits.skip(0) == digits);
    }
}

/// Of two runs of digits of one length, the one with the smaller digit
/// where they first differ spells the smaller number.
pub proof fn lemma_digits_order(low: Seq<char>, high: Seq<char>, at: int)
    requires
        all_digits(low),
        all_digits(high),
        low.len() == high.len(),
        0 <= at < low.len(),
        low.take(at) == high.take(at),
        low[at] < high[at],
    ensures
        digits_value(low) < digits_value(high),
    decreases low.len(),
{
    let low_front = low.drop_last();
    let high_front = high.drop_last();
    assert(is_digit(low.last()) && is_digit(high.last()));
    if at == low.len() - 1 {
        assert(low_front == low.take(at));
        assert(high_front == high.take(at));
    } else {
        assert forall|i: int| 0 <= i < low_front.len() implies is_digit(
            #[trigger] low_front[i],
        ) by {
            assert(low_front[i] == low[i]);
        }
        assert forall|i: int| 0 <= i < high_front.len() implies is_digit(
            #[trigger] high_front[i],
        ) by {
            assert(high_front[i] == high[i]);
        }
        assert(low_front.take(at) == low.take(at));
        assert(high_front.take(at) == high.take(at));
        lemma_digits_order(low_front, high_front, at);
    }
}

/// The end of the run of decimal digits that starts at `from`.
pub open spec fn digits_end(text: Seq<char>, from: int) -> int
    decreases text.len() - from,
{
    if 0 <= from < text.len() && is_digit(text[from]) {
        digits_end(text, from + 1)
    } else {
        from
    }
}

/// The run of digits from `from` ends within the text and holds only digits.
pub proof fn lemma_digits_end(text: Seq<char>, from: int)
    requires
        0 <= from <= text.len(),
    ensures
        from <= digits_end(text, from) <= text.len(),
        all_digits(text.subrange(from, digits_end(text, from))),
        digits_end(text, from) < text.len() ==> !is_digit(text[digits_end(text, from)]),
    decreases text.len() - from,
{
    if from < text.len() && is_digit(text[from]) {
        lemma_digits_end(text, from + 1);
        let end = digits_end(text, from);
        assert forall|i: int| 0 <= i < end - from implies is_digit(
            #[trigger] text.subrange(from, end)[i],
        ) by {
            if i > 0 {
                assert(text.subrange(from, end)[i] == text.subrange(from + 1, end)[i - 1]);
            }
        }
    }
}

/// Finds the end of the run of decimal digits that starts at `from`.
pub(crate) fn scan_digits(text: &[char], from: usize) -> (end: usize)
    requires
        from <= text.len(),
    ensures
        end == digits_end(text@, from as int),
        from <= end <= text.len(),
{
    let mut end: usize = from;
    while end < text.len() && '0' <= text[end] && text[end] <= '9'
        invariant
            from <= end <= text.len(),
            digits_end(text@, from as int) == digits_end(text@, end as int),
        decreases text.len() - end,
    {
        end += 1;
    }
    end
}

/// Appends the characters of `text` from `from` up to `to` to `out`.
pub(crate) fn copy_range(out: &mut Vec<char>, text: &[char], from: usize, to: usize)
    requires
        from <= to <= text.len(),
    ensures
        final(out)@ == old(out)@ + text@.subrange(from as int, to as int),
{
    let mut at: usize = from;
    while at < to
        invariant
            from <= at <= to <= text.len(),
            out@ == old(out)@ + text@.subrange(from as int, at as int),
        decreases to - at,
    {
        out.push(text[at]);
        at += 1;
        assert(text@.subrange(from as int, at as int) == text@.subrange(from as int, at - 1).push(
            text@[at - 1],
        ));
    }
}

/// `count` zero digits.
pub open spec fn zeros(count: nat) -> Seq<char> {
    Seq::new(count, |i: int| '0')
}

/// Ten to the power `k`.
pub open spec fn pow10(k: nat) -> nat
    decreases k,
{
    if k == 0 {
        1
    } else {
        10 * pow10((k - 1) as nat)
    }
}

/// Zero digits behind a numeral multiply its value by a power of ten.
pub proof fn lemma_trailing_zeros(digits: Seq<char>, count: nat)
    ensures
        digits_value(digits + zeros(count)) == digits_value(digits) * pow10(count),
    decreases count,
{
    if count == 0 {
        assert(digits + zeros(0) == digits);
        assert(digits_value(digits) * 1 == digits_value(digits));
    } else {
        let shorter = digits + zeros((count - 1) as nat);
        let value = digits_value(digits);
        let power = pow10((count - 1) as nat);
        lemma_trailing_zeros(digits, (count - 1) as nat);
        assert((digits + zeros(count)).drop_last() == shorter);
        assert((digits + zeros(count)).last() == '0');
        assert(digit_value('0') == 0);
        assert(digits_value(digits + zeros(count)) == digits_value(shorter) * 10);
        assert(value * power * 10 == value * (10 * power)) by (nonlinear_arith);
    }
}

/// Powers of ten grow with the exponent, and the eighteenth is a one with
/// eighteen zeros.
pub proof fn lemma_pow10_grows(low: nat, high: nat)
    requires
        low <= high,
    ensures
        1 <= pow10(low) <= pow10(high),
        pow10(18) == 1_000_000_000_000_000_000,
    decreases high,
{
    if low < high {
        lemma_pow10_grows(low, (high - 1) as nat);
    } else if low > 0 {
        lemma_pow10_grows((low - 1) as nat, (high - 1) as nat);
    }
    reveal_with_fuel(pow10, 19);
}

/// The number spelled by the digits of `text` from `from` up to `to`, or
/// `cap` where the number is larger.
pub(crate) fn capped_value(text: &[char], from: usize, to: usize, cap: u128) -> (value: u128)
    requires
        from <= to <= text.len(),
        all_digits(text@.subrange(from as int, to as int)),
        cap <= 0x0fff_ffff_ffff_ffff_ffff_ffff_ffff_ffff,
    ensures
        value == if digits_value(text@.subrange(from as int, to as int)) < cap {
            digits_value(text@.subrange(from as int, to as int))
        } else {
            cap as nat
        },
{
    let mut value: u128 = 0;
    let mut at: usize = from;
    if cap == 0 {
        return 0;
    }
    while at < to
        invariant
            from <= at <= to <= text.len(),
            all_digits(text@.subrange(from as int, to as int)),
            0 < cap <= 0x0fff_ffff_ffff_ffff_ffff_ffff_ffff_ffff,
            value == if digits_value(text@.subrange(from as int, at as int)) < cap {
                digits_value(text@.subrange(from as int, at as int))
            } else {
                cap as nat
            },
        decreases to - at,
    {
        let c = text[at];
        proof {
            assert(text@.subrange(from as int, to as int)[at - from] == c);
            assert(text@.subrange(from as int, at + 1).drop_last() == text@.subrange(
                from as int,
                at as int,
            ));
            assert(text@.subrange(from as int, at + 1).last() == c);
        }
        let digit: u128 = (c as u32 - 48) as u128;
        value = value * 10 + digit;
        if value > cap {
            value = cap;
        }
        at += 1;
    }
    value
}

} // verus!

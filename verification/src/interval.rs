//! The interval between two runs of the command.

use std::time::Duration;
use vstd::prelude::*;

use crate::text::{
    all_digits, capped_value, chars_of, copy_range, digit_value, digits_end, digits_value,
    is_digit, lemma_digits_below_power, lemma_digits_end, lemma_digits_order,
    lemma_digits_reach_power, lemma_leading_zeros, lemma_pow10_grows, lemma_trailing_zeros, pow10,
    scan_digits, trim_bounds, trimmed, zeros,
};

verus! {

/// Nanoseconds in one second.
pub const NANOS_PER_SEC: u64 = 1_000_000_000;

/// The interval used when none is given: two seconds.
pub const DEFAULT_INTERVAL_NANOS: u64 = 2_000_000_000;

/// The shortest interval: a tenth of a second.
pub const MIN_INTERVAL_NANOS: u64 = 100_000_000;

/// The longest interval: thirty-one days.
pub const MAX_INTERVAL_NANOS: u64 = 2_678_400_000_000_000;

/// The longest duration there is, in nanoseconds.
pub open spec fn max_duration_nanos() -> nat {
    0xffff_ffff_ffff_ffff * 1_000_000_000 + 999_999_999
}

/// The length of a duration in nanoseconds.
pub uninterp spec fn duration_nanos(d: Duration) -> nat;

/// `Duration::as_nanos` of the standard library: the whole length of the
/// duration in nanoseconds, which is less than 2^64 seconds.
pub assume_specification[ Duration::as_nanos ](d: &Duration) -> (nanos: u128)
    ensures
        nanos == duration_nanos(*d),
        nanos <= max_duration_nanos(),
;

/// `Duration::new` of the standard library: a duration of `secs` seconds and
/// `nanos` nanoseconds. With less than a second of nanoseconds nothing
/// carries over, so the seconds cannot overflow.
pub assume_specification[ Duration::new ](secs: u64, nanos: u32) -> (d: Duration)
    requires
        nanos < 1_000_000_000,
    ensures
        duration_nanos(d) == secs * 1_000_000_000 + nanos,
;

/// `Clone::clone` of a `Duration`: the same duration.
pub assume_specification[ <Duration as Clone>::clone ](d: &Duration) -> (copy: Duration)
    ensures
        copy == *d,
;

/// The duration that lasts `nanos` nanoseconds.
pub(crate) fn duration_of_nanos(nanos: u128) -> (d: Duration)
    requires
        nanos <= max_duration_nanos(),
    ensures
        duration_nanos(d) == nanos,
{
    let secs: u128 = nanos / 1_000_000_000;
    let rest: u128 = nanos % 1_000_000_000;
    Duration::new(secs as u64, rest as u32)
}

/// The interval used when none is given.
pub fn default_interval() -> (interval: Duration)
    ensures
        duration_nanos(interval) == DEFAULT_INTERVAL_NANOS,
{
    duration_of_nanos(DEFAULT_INTERVAL_NANOS as u128)
}

/// The digits of 2^1024 - 2^970, the least magnitude that lies too far out
/// for a double: a number from there on reads as infinite.
pub const DOUBLE_LIMIT: &'static str = "179769313486231580793728971405303415079934132710037826936173778980444968292764750946649017977587207096330286416692887910946555547851940402630657488671505820681908902000708383676273854845817711531764475730270069855571366959622842914819860834936475292719074168444365510704342711559699508093042880177904174497792";

/// The limit is a numeral of 309 digits that opens with a one.
pub proof fn lemma_double_limit()
    ensures
        DOUBLE_LIMIT@.len() == 309,
        all_digits(DOUBLE_LIMIT@),
        DOUBLE_LIMIT@[0] == '1',
{
    reveal_strlit("179769313486231580793728971405303415079934132710037826936173778980444968292764750946649017977587207096330286416692887910946555547851940402630657488671505820681908902000708383676273854845817711531764475730270069855571366959622842914819860834936475292719074168444365510704342711559699508093042880177904174497792");
}

/// Why a text is no interval.
#[derive(Debug, Clone, Copy, PartialEq, Eq, Structural)]
pub enum IntervalParseError {
    /// The text holds nothing but white space.
    Empty,
    /// The text is no decimal number.
    NotANumber,
}

impl IntervalParseError {
    /// The error in words.
    pub fn message(&self) -> (out: String)
        ensures
            out@ == match *self {
                IntervalParseError::Empty => "interval is empty"@,
                IntervalParseError::NotANumber => "interval is not a number"@,
            },
    {
        match self {
            IntervalParseError::Empty => "interval is empty".to_owned(),
            IntervalParseError::NotANumber => "interval is not a number".to_owned(),
        }
    }
}

/// A decimal number taken apart: the value is the number that `digits`
/// spell with the decimal point behind the first `whole_len` of them, times
/// ten to the power `exponent`, negated where `negative`.
pub struct Numeral {
    pub negative: bool,
    pub digits: Seq<char>,
    pub whole_len: nat,
    pub exponent: int,
}

/// Whether a sign stands at `at`.
pub open spec fn sign_at(text: Seq<char>, at: int) -> bool {
    0 <= at < text.len() && (text[at] == '+' || text[at] == '-')
}

/// Reads a decimal number: an optional sign; digits with at most one point
/// among, before or behind them, one digit at least; and optionally `e` or
/// `E`, an optional sign and one digit at least. Anything else is no number.
pub open spec fn numeral_of(text: Seq<char>) -> Option<Numeral> {
    let whole_start: int = if sign_at(text, 0) {
        1
    } else {
        0
    };
    let whole_end = digits_end(text, whole_start);
    let fraction_start = if whole_end < text.len() && text[whole_end] == '.' {
        whole_end + 1
    } else {
        whole_end
    };
    let fraction_end = digits_end(text, fraction_start);
    let digits = text.subrange(whole_start, whole_end) + text.subrange(
        fraction_start,
        fraction_end,
    );
    let negative = whole_start == 1 && text[0] == '-';
    let whole_len = (whole_end - whole_start) as nat;
    if digits.len() == 0 {
        None
    } else if fraction_end == text.len() {
        Some(Numeral { negative, digits, whole_len, exponent: 0 })
    } else if text[fraction_end] == 'e' || text[fraction_end] == 'E' {
        let exponent_start = if sign_at(text, fraction_end + 1) {
            fraction_end + 2
        } else {
            fraction_end + 1
        };
        let exponent_end = digits_end(text, exponent_start);
        let magnitude = digits_value(text.subrange(exponent_start, exponent_end));
        if exponent_end == exponent_start || exponent_end != text.len() {
            None
        } else if text[fraction_end + 1] == '-' {
            Some(Numeral { negative, digits, whole_len, exponent: -magnitude })
        } else {
            Some(Numeral { negative, digits, whole_len, exponent: magnitude as int })
        }
    } else {
        None
    }
}

/// The digits of the whole part of a number's magnitude times ten to the
/// power `places`: the decimal point moves right by `places` and by the
/// exponent, zeros fill in behind the digits, and what ends up behind the
/// point is cut off.
pub open spec fn shifted_digits(n: Numeral, places: int) -> Seq<char> {
    let point = n.whole_len + n.exponent + places;
    if point <= 0 {
        Seq::empty()
    } else if point <= n.digits.len() {
        n.digits.take(point)
    } else {
        n.digits + zeros((point - n.digits.len()) as nat)
    }
}

/// The interval that a number of seconds stands for, in nanoseconds: the
/// number rounded to the nearest nanosecond, half a nanosecond going up, and
/// brought into the range from the shortest to the longest interval. A
/// negative number gives the shortest.
pub open spec fn interval_nanos(n: Numeral) -> nat {
    let rounded = (digits_value(shifted_digits(n, 10)) + 5) / 10;
    if n.negative || rounded < MIN_INTERVAL_NANOS {
        MIN_INTERVAL_NANOS as nat
    } else if rounded > MAX_INTERVAL_NANOS {
        MAX_INTERVAL_NANOS as nat
    } else {
        rounded
    }
}

/// The text with a point in place of every comma.
pub open spec fn with_points(text: Seq<char>) -> Seq<char> {
    Seq::new(
        text.len(),
        |i: int|
            if text[i] == ',' {
                '.'
            } else {
                text[i]
            },
    )
}

/// Whether the magnitude of a number is at least the limit of the doubles:
/// whether its whole part is. Such a number counts as infinite and is no
/// interval.
pub open spec fn exceeds_double(n: Numeral) -> bool {
    digits_value(shifted_digits(n, 0)) >= digits_value(DOUBLE_LIMIT@)
}

/// What a text gives as an interval, in nanoseconds: white space around it
/// does not count, and a comma serves as decimal point too. A number too
/// large for a double is no number.
pub open spec fn parsed_interval(input: Seq<char>) -> Result<nat, IntervalParseError> {
    if trimmed(input).len() == 0 {
        Err(IntervalParseError::Empty)
    } else {
        match numeral_of(with_points(trimmed(input))) {
            Some(n) => if exceeds_double(n) {
                Err(IntervalParseError::NotANumber)
            } else {
                Ok(interval_nanos(n))
            },
            None => Err(IntervalParseError::NotANumber),
        }
    }
}

/// Above any interval in tenths of a nanosecond.
const TENTHS_CAP: u128 = 1_000_000_000_000_000_000;

/// Above any exponent that can matter for a text that fits in memory.
const EXPONENT_CAP: u128 = 1_000_000_000_000_000_000_000_000_000_000;

proof fn lemma_whole_part(n: Numeral, zeros_count: int)
    requires
        all_digits(n.digits),
        0 <= zeros_count < n.digits.len(),
        forall|i: int| 0 <= i < zeros_count ==> n.digits[i] == '0',
        n.digits[zeros_count] != '0',
        n.whole_len + n.exponent > zeros_count,
    ensures
        all_digits(shifted_digits(n, 0).skip(zeros_count)),
        shifted_digits(n, 0).skip(zeros_count).len() == n.whole_len + n.exponent - zeros_count,
        shifted_digits(n, 0).skip(zeros_count)[0] != '0',
        digits_value(shifted_digits(n, 0)) == digits_value(
            shifted_digits(n, 0).skip(zeros_count),
        ),
{
    let whole = shifted_digits(n, 0);
    let kept = whole.skip(zeros_count);
    assert forall|i: int| 0 <= i < whole.len() implies is_digit(#[trigger] whole[i]) && (i
        < n.digits.len() ==> whole[i] == n.digits[i]) by {
        if i < n.digits.len() {
            assert(is_digit(n.digits[i]));
        }
    }
    assert forall|i: int| 0 <= i < kept.len() implies is_digit(#[trigger] kept[i]) by {
        assert(kept[i] == whole[i + zeros_count]);
    }
    assert(kept[0] == whole[zeros_count]);
    lemma_leading_zeros(whole, zeros_count);
}

/// Whether the magnitude is at least the limit of the doubles. `magnitude`
/// is the exponent's magnitude as far as it is below `EXPONENT_CAP`.
fn too_large_for_double(
    digits: &[char],
    whole_len: usize,
    exponent_negative: bool,
    magnitude: u128,
    Ghost(n): Ghost<Numeral>,
) -> (yes: bool)
    requires
        n.digits == digits@,
        all_digits(digits@),
        n.whole_len == whole_len <= digits.len(),
        exponent_negative ==> n.exponent <= 0,
        !exponent_negative ==> n.exponent >= 0,
        magnitude == if n.exponent < EXPONENT_CAP && -n.exponent < EXPONENT_CAP {
            if exponent_negative {
                -n.exponent
            } else {
                n.exponent
            }
        } else {
            EXPONENT_CAP as int
        },
    ensures
        yes == exceeds_double(n),
{
    let len: usize = digits.len();
    let mut zeros_count: usize = 0;
    while zeros_count < len && digits[zeros_count] == '0'
        invariant
            zeros_count <= len == digits.len(),
            forall|i: int| 0 <= i < zeros_count ==> digits@[i] == '0',
        decreases len - zeros_count,
    {
        zeros_count += 1;
    }
    let ghost whole = shifted_digits(n, 0);
    let ghost point = n.whole_len + n.exponent;
    proof {
        lemma_double_limit();
        lemma_digits_reach_power(DOUBLE_LIMIT@);
        lemma_digits_below_power(DOUBLE_LIMIT@);
        lemma_pow10_grows(0, 308);
        if zeros_count == len || point <= zeros_count {
            assert forall|i: int| 0 <= i < whole.len() implies whole[i] == '0' by {
                if i < n.digits.len() {
                    assert(whole[i] == n.digits[i]);
                }
            }
            lemma_leading_zeros(whole, whole.len() as int);
            assert(whole.skip(whole.len() as int).len() == 0);
        } else {
            lemma_whole_part(n, zeros_count as int);
            let kept = whole.skip(zeros_count as int);
            lemma_digits_reach_power(kept);
            lemma_digits_below_power(kept);
            if kept.len() > 309 {
                lemma_pow10_grows(309, (kept.len() - 1) as nat);
            }
            if kept.len() < 309 {
                lemma_pow10_grows(kept.len(), 308);
            }
        }
    }
    if zeros_count == len {
        return false;
    }
    if magnitude >= EXPONENT_CAP {
        return !exponent_negative;
    }
    let point: i128 = if exponent_negative {
        whole_len as i128 - magnitude as i128
    } else {
        whole_len as i128 + magnitude as i128
    };
    if point <= zeros_count as i128 {
        return false;
    }
    let significant: i128 = point - zeros_count as i128;
    if significant != 309 {
        return significant > 309;
    }
    let upper: usize = if point <= len as i128 {
        point as usize
    } else {
        len
    };
    let mut window: Vec<char> = Vec::new();
    copy_range(&mut window, digits, zeros_count, upper);
    let ghost copied = window@;
    while window.len() < 309
        invariant
            window@ == copied + zeros((window.len() - copied.len()) as nat),
            copied.len() <= window.len() <= 309,
        decreases 309 - window.len(),
    {
        window.push('0');
    }
    proof {
        assert(copied + zeros(0) == copied);
        assert(window@ == whole.skip(zeros_count as int));
    }
    let limit = chars_of(DOUBLE_LIMIT);
    let mut at: usize = 0;
    while at < 309 && window[at] == limit[at]
        invariant
            at <= 309,
            window.len() == 309,
            limit@.len() == 309,
            window@.take(at as int) == limit@.take(at as int),
        decreases 309 - at,
    {
        at += 1;
        assert(window@.take(at as int) == window@.take(at - 1).push(window@[at - 1]));
        assert(limit@.take(at as int) == limit@.take(at - 1).push(limit@[at - 1]));
    }
    if at == 309 {
        proof {
            assert(window@.take(309) == window@);
            assert(limit@.take(309) == limit@);
        }
        return true;
    }
    proof {
        if window@[at as int] > limit@[at as int] {
            lemma_digits_order(limit@, window@, at as int);
        } else {
            lemma_digits_order(window@, limit@, at as int);
        }
    }
    window[at] > limit[at]
}

/// The whole part of the magnitude times ten to the tenth, or `TENTHS_CAP`
/// where it is larger. `magnitude` is the exponent's magnitude as far as it
/// is below `EXPONENT_CAP`.
fn scaled_tenths(
    digits: &[char],
    whole_len: usize,
    exponent_negative: bool,
    magnitude: u128,
    Ghost(n): Ghost<Numeral>,
) -> (tenths: u128)
    requires
        n.digits == digits@,
        all_digits(digits@),
        n.whole_len == whole_len <= digits.len(),
        exponent_negative ==> n.exponent <= 0,
        !exponent_negative ==> n.exponent >= 0,
        magnitude == if n.exponent < EXPONENT_CAP && -n.exponent < EXPONENT_CAP {
            if exponent_negative {
                -n.exponent
            } else {
                n.exponent
            }
        } else {
            EXPONENT_CAP as int
        },
    ensures
        tenths == if digits_value(shifted_digits(n, 10)) < TENTHS_CAP {
            digits_value(shifted_digits(n, 10))
        } else {
            TENTHS_CAP as nat
        },
{
    let len: usize = digits.len();
    let whole: u128 = capped_value(digits, 0, len, TENTHS_CAP);
    proof {
        assert(digits@.subrange(0, len as int) == digits@);
    }
    if magnitude >= EXPONENT_CAP {
        if exponent_negative || whole == 0 {
            proof {
                if !exponent_negative {
                    let count = (n.whole_len + n.exponent + 10 - n.digits.len()) as nat;
                    lemma_trailing_zeros(digits@, count);
                    assert(0 * pow10(count) == 0) by (nonlinear_arith);
                    assert(digits_value(shifted_digits(n, 10)) == 0);
                } else {
                    assert(shifted_digits(n, 10) == Seq::<char>::empty());
                }
            }
            return 0;
        }
        proof {
            let count = (n.whole_len + n.exponent + 10 - n.digits.len()) as nat;
            lemma_many_zeros_reach_cap(digits@, count);
        }
        return TENTHS_CAP;
    }
    let point: i128 = if exponent_negative {
        whole_len as i128 + 10 - magnitude as i128
    } else {
        whole_len as i128 + 10 + magnitude as i128
    };
    assert(point == n.whole_len + n.exponent + 10);
    if point <= 0 {
        return 0;
    }
    if point <= len as i128 {
        proof {
            assert(digits@.subrange(0, point as int) == digits@.take(point as int));
            assert forall|i: int| 0 <= i < point implies is_digit(
                #[trigger] digits@.subrange(0, point as int)[i],
            ) by {
                assert(digits@.subrange(0, point as int)[i] == digits@[i]);
            }
        }
        return capped_value(digits, 0, point as usize, TENTHS_CAP);
    }
    let count: i128 = point - len as i128;
    if count >= 18 {
        proof {
            lemma_trailing_zeros(digits@, count as nat);
            if whole == 0 {
                assert(0 * pow10(count as nat) == 0) by (nonlinear_arith);
            } else {
                lemma_many_zeros_reach_cap(digits@, count as nat);
            }
        }
        return if whole == 0 {
            0
        } else {
            TENTHS_CAP
        };
    }
    let mut tenths: u128 = whole;
    let mut done: i128 = 0;
    proof {
        assert(digits@ + zeros(0) == digits@);
    }
    while done < count
        invariant
            0 <= done <= count < 18,
            tenths == if digits_value(digits@ + zeros(done as nat)) < TENTHS_CAP {
                digits_value(digits@ + zeros(done as nat))
            } else {
                TENTHS_CAP as nat
            },
        decreases count - done,
    {
        proof {
            let longer = digits@ + zeros((done + 1) as nat);
            assert(longer.drop_last() == digits@ + zeros(done as nat));
            assert(longer.last() == '0');
            assert(digit_value('0') == 0);
        }
        tenths = tenths * 10;
        if tenths > TENTHS_CAP {
            tenths = TENTHS_CAP;
        }
        done += 1;
    }
    tenths
}

proof fn lemma_many_zeros_reach_cap(digits: Seq<char>, count: nat)
    requires
        digits_value(digits) >= 1,
        count >= 18,
    ensures
        digits_value(digits + zeros(count)) >= TENTHS_CAP,
{
    lemma_trailing_zeros(digits, count);
    lemma_pow10_grows(18, count);
    let value = digits_value(digits);
    let power = pow10(count);
    assert(value * power >= power) by (nonlinear_arith)
        requires
            value >= 1,
            power >= 1,
    ;
}

/// Reads an interval in seconds. White space around the number does not
/// count, a comma or a point separates the decimals, and an exponent may
/// follow. The number is rounded to the nanosecond and brought into the
/// range from a tenth of a second to thirty-one days.
pub fn parse_interval(input: &str) -> (result: Result<Duration, IntervalParseError>)
    ensures
        match parsed_interval(input@) {
            Ok(nanos) => result is Ok && duration_nanos(result->Ok_0) == nanos,
            Err(error) => result == Err::<Duration, IntervalParseError>(error),
        },
{
    let chars = chars_of(input);
    let (start, end) = trim_bounds(chars.as_slice());
    if start == end {
        return Err(IntervalParseError::Empty);
    }
    let mut text: Vec<char> = Vec::new();
    let mut at: usize = start;
    while at < end
        invariant
            start <= at <= end <= chars.len(),
            text@ == with_points(chars@.subrange(start as int, at as int)),
        decreases end - at,
    {
        let c = chars[at];
        text.push(if c == ',' { '.' } else { c });
        at += 1;
        assert(text@ =~= with_points(chars@.subrange(start as int, at as int)));
    }
    assert(chars@.subrange(start as int, end as int) == trimmed(input@));
    match interval_of(text.as_slice()) {
        Some(nanos) => Ok(duration_of_nanos(nanos as u128)),
        None => Err(IntervalParseError::NotANumber),
    }
}

/// Reads the interval, in nanoseconds, that a decimal number of seconds
/// stands for; `None` where the text is no decimal number, or a number too
/// large for a double.
pub fn interval_of(text: &[char]) -> (nanos: Option<u64>)
    ensures
        nanos == match numeral_of(text@) {
            Some(n) => if exceeds_double(n) {
                None
            } else {
                Some(interval_nanos(n) as u64)
            },
            None => None,
        },
        nanos is Some ==> MIN_INTERVAL_NANOS <= nanos->0 <= MAX_INTERVAL_NANOS,
{
    let len: usize = text.len();
    let whole_start: usize = if len > 0 && (text[0] == '+' || text[0] == '-') {
        1
    } else {
        0
    };
    let negative = whole_start == 1 && text[0] == '-';
    let whole_end = scan_digits(text, whole_start);
    let fraction_start: usize = if whole_end < len && text[whole_end] == '.' {
        whole_end + 1
    } else {
        whole_end
    };
    let fraction_end = scan_digits(text, fraction_start);
    let mut digits: Vec<char> = Vec::new();
    copy_range(&mut digits, text, whole_start, whole_end);
    copy_range(&mut digits, text, fraction_start, fraction_end);
    proof {
        lemma_digits_end(text@, whole_start as int);
        lemma_digits_end(text@, fraction_start as int);
        assert(digits@ == text@.subrange(whole_start as int, whole_end as int) + text@.subrange(
            fraction_start as int,
            fraction_end as int,
        ));
    }
    if digits.len() == 0 {
        return None;
    }
    let mut exponent_negative = false;
    let mut magnitude: u128 = 0;
    let ghost mut exponent: int = 0;
    if fraction_end < len {
        if text[fraction_end] != 'e' && text[fraction_end] != 'E' {
            return None;
        }
        let signed = fraction_end + 1 < len && (text[fraction_end + 1] == '+' || text[fraction_end
            + 1] == '-');
        let exponent_start: usize = if signed {
            fraction_end + 2
        } else {
            fraction_end + 1
        };
        let exponent_end = scan_digits(text, exponent_start);
        if exponent_end == exponent_start || exponent_end != len {
            return None;
        }
        proof {
            lemma_digits_end(text@, exponent_start as int);
        }
        exponent_negative = text[fraction_end + 1] == '-';
        magnitude = capped_value(text, exponent_start, exponent_end, EXPONENT_CAP);
        proof {
            let value = digits_value(text@.subrange(exponent_start as int, exponent_end as int));
            exponent = if exponent_negative {
                -value
            } else {
                value as int
            };
        }
    }
    let ghost n = Numeral {
        negative,
        digits: digits@,
        whole_len: (whole_end - whole_start) as nat,
        exponent,
    };
    assert(numeral_of(text@) == Some(n));
    if too_large_for_double(
        digits.as_slice(),
        whole_end - whole_start,
        exponent_negative,
        magnitude,
        Ghost(n),
    ) {
        return None;
    }
    let tenths = scaled_tenths(
        digits.as_slice(),
        whole_end - whole_start,
        exponent_negative,
        magnitude,
        Ghost(n),
    );
    let rounded: u128 = (tenths + 5) / 10;
    if negative || rounded < MIN_INTERVAL_NANOS as u128 {
        Some(MIN_INTERVAL_NANOS)
    } else if rounded > MAX_INTERVAL_NANOS as u128 {
        Some(MAX_INTERVAL_NANOS)
    } else {
        Some(rounded as u64)
    }
}

} // verus!

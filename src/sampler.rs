use vstd::prelude::*;

use crate::color::string_to_chars;
use crate::correction::{Config, MAX_BRIGHTNESS};

verus! {

pub open spec fn is_decimal_digit(c: char) -> bool {
    '0' <= c && c <= '9'
}

pub open spec fn digit_value(c: char) -> int {
    c as int - '0' as int
}

/// ASCII whitespace: space, tab, line feed, carriage return.
pub open spec fn is_space(c: char) -> bool {
    c == ' ' || c == '\t' || c == '\n' || c == '\r'
}

/// `s` without its trailing whitespace.
pub open spec fn trim_end(s: Seq<char>) -> Seq<char>
    decreases s.len(),
{
    if s.len() > 0 && is_space(s.last()) {
        trim_end(s.drop_last())
    } else {
        s
    }
}

pub open spec fn all_digits(s: Seq<char>) -> bool {
    forall|i: int| 0 <= i < s.len() ==> is_decimal_digit(#[trigger] s[i])
}

/// The value of a run of decimal digits.
pub open spec fn digits_value(s: Seq<char>) -> int
    decreases s.len(),
{
    if s.len() == 0 {
        0
    } else {
        digits_value(s.drop_last()) * 10 + digit_value(s.last())
    }
}

/// How many decimal digits `s` begins with.
pub open spec fn leading_digits(s: Seq<char>) -> nat
    decreases s.len(),
{
    if s.len() > 0 && is_decimal_digit(s[0]) {
        1 + leading_digits(s.skip(1))
    } else {
        0
    }
}

/// Ten to the power `n`.
pub open spec fn pow10(n: nat) -> int
    decreases n,
{
    if n == 0 {
        1
    } else {
        10 * pow10((n - 1) as nat)
    }
}

/// The number whose decimal digits are `d`, with the point after the first
/// `p` of them (zeros added where `p` lies beyond `d`), truncated to an
/// integer: the digits before position `p`.
pub open spec fn truncated_at(d: Seq<char>, p: int) -> int {
    if p <= 0 {
        0
    } else if p <= d.len() {
        digits_value(d.take(p))
    } else {
        digits_value(d) * pow10((p - d.len()) as nat)
    }
}

// The parts of a number written `[+]digits[.digits][(e|E)[+|-]digits]`, as
// positions in its text.

/// Where the integer digits begin: after a leading `+`, if any.
pub open spec fn int_start(t: Seq<char>) -> int {
    if t.len() > 0 && t[0] == '+' {
        1
    } else {
        0
    }
}

/// Where the integer digits end.
pub open spec fn int_end(t: Seq<char>) -> int {
    int_start(t) + leading_digits(t.skip(int_start(t)))
}

/// Whether a decimal point follows the integer digits.
pub open spec fn has_point(t: Seq<char>) -> bool {
    int_end(t) < t.len() && t[int_end(t)] == '.'
}

/// Where the fraction digits begin.
pub open spec fn frac_start(t: Seq<char>) -> int {
    if has_point(t) {
        int_end(t) + 1
    } else {
        int_end(t)
    }
}

/// Where the fraction digits end: where an exponent may begin.
pub open spec fn frac_end(t: Seq<char>) -> int {
    if has_point(t) {
        frac_start(t) + leading_digits(t.skip(frac_start(t)))
    } else {
        frac_start(t)
    }
}

/// The digits of the number, integer and fraction digits together.
pub open spec fn mantissa_digits(t: Seq<char>) -> Seq<char> {
    t.subrange(int_start(t), int_end(t)) + t.subrange(frac_start(t), frac_end(t))
}

/// 1 where the exponent has a sign, else 0.
pub open spec fn exp_sign_len(t: Seq<char>) -> int {
    let s0 = frac_end(t) + 1;
    if s0 < t.len() && (t[s0] == '+' || t[s0] == '-') {
        1
    } else {
        0
    }
}

/// The digits of the exponent.
pub open spec fn exp_digits(t: Seq<char>) -> Seq<char> {
    t.skip(frac_end(t) + 1 + exp_sign_len(t))
}

/// Whether `t` is a number `[+]digits[.digits][(e|E)[+|-]digits]` with at least
/// one digit before the exponent, either side of the point (`5.`, `.5`, `1e2`).
pub open spec fn is_float_token(t: Seq<char>) -> bool {
    &&& mantissa_digits(t).len() > 0
    &&& (frac_end(t) == t.len() || ((t[frac_end(t)] == 'e' || t[frac_end(t)] == 'E')
        && exp_digits(t).len() > 0 && all_digits(exp_digits(t))))
}

/// The exponent of a number, 0 where it has none.
pub open spec fn exponent(t: Seq<char>) -> int {
    if frac_end(t) == t.len() {
        0
    } else if exp_sign_len(t) == 1 && t[frac_end(t) + 1] == '-' {
        -digits_value(exp_digits(t))
    } else {
        digits_value(exp_digits(t))
    }
}

/// The value of the number `t` in thousandths, truncated: its digits with the
/// point moved by the exponent and three places more.
pub open spec fn token_thousandths(t: Seq<char>) -> int {
    truncated_at(mantissa_digits(t), int_end(t) - int_start(t) + exponent(t) + 3)
}

/// The brightness that the text `s` states, in thousandths of a luma level: a
/// floating-point number in [0, 255], trailing whitespace aside, truncated to
/// thousandths.
pub open spec fn brightness_of(s: Seq<char>) -> Option<int> {
    let t = trim_end(s);
    if is_float_token(t) && token_thousandths(t) <= MAX_BRIGHTNESS {
        Some(token_thousandths(t))
    } else {
        None
    }
}

/// Why a frame's brightness could not be had.
#[derive(Clone, Copy, Debug, PartialEq, Eq, Structural)]
pub enum SampleError {
    /// The decoder could not be started.
    ProcessSpawnError,
    /// The decoder ended with a failure status.
    ProcessExitError,
    /// The decoder printed something that is no brightness.
    ParseError,
    /// The decoder printed no brightness: no frame at that time, or no video.
    NoFrameError,
}

/// How a frame is found for a timestamp.
#[derive(Clone, Copy, Debug, PartialEq, Eq, Structural)]
pub enum SamplingStrategy {
    /// Seek to the nearest keyframe without decoding: fast, maybe off in time.
    NearestKeyframe,
    /// Decode from the preceding keyframe up to the timestamp: exact, slower.
    FullDecode,
}

/// What happens to a cue whose frame could not be sampled.
#[derive(Clone, Copy, Debug, PartialEq, Eq, Structural)]
pub enum FailurePolicy {
    /// The run stops with the error.
    FailFast,
    /// The cue is treated as if its frame had the neutral midpoint brightness.
    SubstituteDefault,
}

/// A sampler's result as an integer-valued outcome.
pub open spec fn as_reading(r: Result<u32, SampleError>) -> Result<int, SampleError> {
    match r {
        Ok(v) => Ok(v as int),
        Err(e) => Err(e),
    }
}

/// What a reading text yields: no text is no frame, text that is no brightness
/// a parse error.
pub open spec fn text_reading(s: Seq<char>) -> Result<int, SampleError> {
    if trim_end(s).len() == 0 {
        Err(SampleError::NoFrameError)
    } else if brightness_of(s) is Some {
        Ok(brightness_of(s)->Some_0)
    } else {
        Err(SampleError::ParseError)
    }
}

/// What the captured value of a full decode's report yields.
pub open spec fn capture_reading(cap: Option<Seq<char>>) -> Result<int, SampleError> {
    match cap {
        None => Err(SampleError::NoFrameError),
        Some(t) => text_reading(t),
    }
}

proof fn lemma_trim_end_stops(s: Seq<char>)
    requires
        s.len() == 0 || !is_space(s.last()),
    ensures
        trim_end(s) == s,
{
}

proof fn lemma_leading_digits(t: Seq<char>, i: int)
    requires
        0 <= i <= t.len(),
        all_digits(t.take(i)),
        i == t.len() || !is_decimal_digit(t[i]),
    ensures
        leading_digits(t) == i,
    decreases i,
{
    if i > 0 {
        assert(t.take(i)[0] == t[0]);
        let u = t.skip(1);
        assert forall|j: int| 0 <= j < i - 1 implies is_decimal_digit(#[trigger] u.take(i - 1)[j]) by {
            assert(u.take(i - 1)[j] == t.take(i)[j + 1]);
        }
        if i < t.len() {
            assert(u[i - 1] == t[i]);
        }
        lemma_leading_digits(u, i - 1);
    }
}

proof fn lemma_digits_bounds(s: Seq<char>)
    requires
        all_digits(s),
    ensures
        0 <= digits_value(s),
        s.len() <= 3 ==> digits_value(s) < (if s.len() == 0 {
            1int
        } else if s.len() == 1 {
            10int
        } else if s.len() == 2 {
            100int
        } else {
            1000int
        }),
    decreases s.len(),
{
    if s.len() > 0 {
        let p = s.drop_last();
        assert forall|i: int| 0 <= i < p.len() implies is_decimal_digit(#[trigger] p[i]) by {
            assert(p[i] == s[i]);
        }
        assert(is_decimal_digit(s[s.len() - 1]));
        lemma_digits_bounds(p);
    }
}

fn is_digit_char(c: char) -> (r: bool)
    ensures
        r == is_decimal_digit(c),
{
    '0' <= c && c <= '9'
}

fn is_space_char(c: char) -> (r: bool)
    ensures
        r == is_space(c),
{
    c == ' ' || c == '\t' || c == '\n' || c == '\r'
}

proof fn lemma_pow10_bounds(n: nat)
    ensures
        pow10(n) >= 1,
        n >= 7 ==> pow10(n) >= 10_000_000,
    decreases n,
{
    if n > 0 {
        lemma_pow10_bounds((n - 1) as nat);
        if n == 7 {
            assert(pow10(6) == 1_000_000) by {
                reveal_with_fuel(pow10, 7);
            }
        }
    }
}

/// The end of the run of digits that begins at `from`, not beyond `end`.
fn scan_digits(c: &Vec<char>, from: usize, end: usize) -> (r: usize)
    requires
        from <= end <= c@.len(),
    ensures
        from <= r <= end,
        all_digits(c@.subrange(from as int, r as int)),
        r == end || !is_decimal_digit(c@[r as int]),
        r - from == leading_digits(c@.subrange(from as int, end as int)),
{
    let mut r: usize = from;
    while r < end && is_digit_char(c[r])
        invariant
            from <= r <= end <= c@.len(),
            all_digits(c@.subrange(from as int, r as int)),
        decreases end - r,
    {
        assert forall|j: int| 0 <= j < r + 1 - from implies is_decimal_digit(
            #[trigger] c@.subrange(from as int, r + 1)[j],
        ) by {
            if j < r - from {
                assert(c@.subrange(from as int, r + 1)[j] == c@.subrange(from as int, r as int)[j]);
            }
        }
        r = r + 1;
    }
    let ghost u = c@.subrange(from as int, end as int);
    assert(u.take(r - from) =~= c@.subrange(from as int, r as int));
    if r < end {
        assert(u[r - from] == c@[r as int]);
    }
    proof {
        lemma_leading_digits(u, r - from);
    }
    r
}

/// The value of the digits in `c[from..to]`, or `cap` where that is larger.
fn capped_value(c: &Vec<char>, from: usize, to: usize, cap: u128) -> (r: u128)
    requires
        from <= to <= c@.len(),
        all_digits(c@.subrange(from as int, to as int)),
        cap <= 1_000_000_000_000_000_000_000_000_000_000,
    ensures
        r as int == if digits_value(c@.subrange(from as int, to as int)) >= cap {
            cap as int
        } else {
            digits_value(c@.subrange(from as int, to as int))
        },
{
    let mut acc: u128 = 0;
    let mut j: usize = from;
    assert(c@.subrange(from as int, from as int).len() == 0);
    while j < to
        invariant
            from <= j <= to <= c@.len(),
            all_digits(c@.subrange(from as int, to as int)),
            cap <= 1_000_000_000_000_000_000_000_000_000_000,
            acc as int == if digits_value(c@.subrange(from as int, j as int)) >= cap {
                cap as int
            } else {
                digits_value(c@.subrange(from as int, j as int))
            },
        decreases to - j,
    {
        let ghost prev = c@.subrange(from as int, j as int);
        let ghost next = c@.subrange(from as int, j + 1);
        assert(next.drop_last() =~= prev);
        assert(next.last() == c@[j as int]);
        assert(c@[j as int] == c@.subrange(from as int, to as int)[j - from]);
        assert forall|k: int| 0 <= k < prev.len() implies is_decimal_digit(#[trigger] prev[k]) by {
            assert(prev[k] == c@.subrange(from as int, to as int)[k]);
        }
        proof {
            lemma_digits_bounds(prev);
        }
        let d = (c[j] as u32 - '0' as u32) as u128;
        if acc < cap {
            acc = acc * 10 + d;
            if acc > cap {
                acc = cap;
            }
        }
        j = j + 1;
    }
    acc
}

fn push_range(dst: &mut Vec<char>, c: &Vec<char>, from: usize, to: usize)
    requires
        from <= to <= c@.len(),
    ensures
        final(dst)@ == old(dst)@ + c@.subrange(from as int, to as int),
{
    let mut j: usize = from;
    while j < to
        invariant
            from <= j <= to <= c@.len(),
            dst@ == old(dst)@ + c@.subrange(from as int, j as int),
        decreases to - j,
    {
        dst.push(c[j]);
        assert(dst@ =~= old(dst)@ + c@.subrange(from as int, j + 1));
        j = j + 1;
    }
}

/// Ten to the power `k`, for small `k`.
fn power_of_ten(k: u32) -> (r: u128)
    requires
        k <= 6,
    ensures
        r as int == pow10(k as nat),
        1 <= r <= 1_000_000,
{
    proof {
        reveal_with_fuel(pow10, 7);
    }
    if k == 0 {
        1
    } else if k == 1 {
        10
    } else if k == 2 {
        100
    } else if k == 3 {
        1000
    } else if k == 4 {
        10_000
    } else if k == 5 {
        100_000
    } else {
        1_000_000
    }
}

/// Far enough past the digits, moving the point further changes nothing that
/// matters: both values are 0, or both are beyond any brightness.
proof fn lemma_truncated_far(d: Seq<char>, p: int, q: int)
    requires
        all_digits(d),
        d.len() + 7 <= p <= q,
    ensures
        truncated_at(d, p) == truncated_at(d, q) || (truncated_at(d, p) > MAX_BRIGHTNESS
            && truncated_at(d, q) > MAX_BRIGHTNESS),
{
    lemma_digits_bounds(d);
    lemma_pow10_bounds((p - d.len()) as nat);
    lemma_pow10_bounds((q - d.len()) as nat);
    if digits_value(d) > 0 {
        assert(digits_value(d) * pow10((p - d.len()) as nat) >= 10_000_000) by (nonlinear_arith)
            requires
                digits_value(d) >= 1,
                pow10((p - d.len()) as nat) >= 10_000_000;
        assert(digits_value(d) * pow10((q - d.len()) as nat) >= 10_000_000) by (nonlinear_arith)
            requires
                digits_value(d) >= 1,
                pow10((q - d.len()) as nat) >= 10_000_000;
    }
}

/// The brightness in thousandths that the digits `d` give with the point after
/// `p` of them, where it is one.
fn truncated_brightness(d: &Vec<char>, p: i128) -> (r: Option<u32>)
    requires
        all_digits(d@),
    ensures
        r is Some <==> truncated_at(d@, p as int) <= MAX_BRIGHTNESS,
        r is Some ==> r->Some_0 as int == truncated_at(d@, p as int),
{
    let len: usize = d.len();
    assert(d@.subrange(0, len as int) =~= d@);
    if p <= 0 {
        return Some(0);
    }
    if p <= len as i128 {
        let v = capped_value(d, 0, p as usize, 1_000_000);
        assert(d@.subrange(0, p as int) =~= d@.take(p as int));
        if v > 255_000 {
            return None;
        }
        return Some(v as u32);
    }
    let v = capped_value(d, 0, len, 1_000_000);
    let ghost k = (p - len) as nat;
    proof {
        lemma_digits_bounds(d@);
        lemma_pow10_bounds(k);
    }
    if v == 0 {
        assert(digits_value(d@) == 0);
        assert(truncated_at(d@, p as int) == 0 * pow10(k));
        return Some(0);
    }
    if p - len as i128 > 6 {
        assert(digits_value(d@) * pow10(k) >= 10_000_000) by (nonlinear_arith)
            requires
                digits_value(d@) >= 1,
                pow10(k) >= 10_000_000;
        return None;
    }
    let m = power_of_ten((p - len as i128) as u32);
    assert(v <= 1_000_000);
    assert(v * m <= 1_000_000_000_000) by (nonlinear_arith)
        requires
            v <= 1_000_000,
            m <= 1_000_000;
    let value: u128 = v * m;
    if value > 255_000 {
        assert(digits_value(d@) * (m as int) > 255_000) by (nonlinear_arith)
            requires
                v as int == if digits_value(d@) >= 1_000_000 { 1_000_000 } else { digits_value(d@) },
                value == v * m,
                value > 255_000,
                m >= 1;
        return None;
    }
    assert(v as int == digits_value(d@));
    Some(value as u32)
}

/// The exponent that begins at `f1`, the end of the digits before it, in the
/// number `c[..end]`: whether it is negative, and its digits' value, or 10^20
/// where that is larger. `None` where no exponent is written there.
fn read_exponent(c: &Vec<char>, f1: usize, end: usize) -> (r: Option<(bool, u128)>)
    requires
        f1 < end <= c@.len(),
        frac_end(c@.take(end as int)) == f1,
    ensures
        ({
            let t = c@.take(end as int);
            &&& r is Some <==> ((t[f1 as int] == 'e' || t[f1 as int] == 'E') && exp_digits(t).len() > 0
                && all_digits(exp_digits(t)))
            &&& r is Some ==> (r->Some_0.0 <==> (exp_sign_len(t) == 1 && t[f1 + 1] == '-'))
            &&& r is Some ==> r->Some_0.1 as int == if digits_value(exp_digits(t)) >= 100_000_000_000_000_000_000 {
                100_000_000_000_000_000_000
            } else {
                digits_value(exp_digits(t))
            }
        }),
{
    let ghost t = c@.take(end as int);
    if c[f1] != 'e' && c[f1] != 'E' {
        return None;
    }
    let s0 = f1 + 1;
    let sign_len: usize = if s0 < end && (c[s0] == '+' || c[s0] == '-') { 1 } else { 0 };
    assert(sign_len == exp_sign_len(t));
    let negative = sign_len == 1 && c[s0] == '-';
    let e0 = s0 + sign_len;
    assert(exp_digits(t) =~= c@.subrange(e0 as int, end as int));
    if e0 == end {
        return None;
    }
    let e1 = scan_digits(c, e0, end);
    if e1 != end {
        assert(exp_digits(t)[e1 - e0] == c@[e1 as int]);
        return None;
    }
    Some((negative, capped_value(c, e0, end, 100_000_000_000_000_000_000)))
}

/// The brightness that the number `c[..end]` states, as `brightness_of` reads it
/// once trailing whitespace is gone.
#[verifier::rlimit(60)]
fn parse_token(c: &Vec<char>, end: usize) -> (r: Option<u32>)
    requires
        end <= c@.len(),
    ensures
        ({
            let t = c@.take(end as int);
            &&& r is Some <==> (is_float_token(t) && token_thousandths(t) <= MAX_BRIGHTNESS)
            &&& r is Some ==> r->Some_0 as int == token_thousandths(t)
        }),
{
    let ghost t = c@.take(end as int);
    let i0: usize = if end > 0 && c[0] == '+' { 1 } else { 0 };
    assert(i0 == int_start(t));
    let i1 = scan_digits(c, i0, end);
    assert(t.skip(i0 as int) =~= c@.subrange(i0 as int, end as int));
    assert(i1 == int_end(t));
    let point = i1 < end && c[i1] == '.';
    assert(point == has_point(t));
    let f0: usize = if point { i1 + 1 } else { i1 };
    let f1: usize = if point { scan_digits(c, f0, end) } else { f0 };
    assert(t.skip(f0 as int) =~= c@.subrange(f0 as int, end as int));
    assert(f1 == frac_end(t));
    assert(t.subrange(i0 as int, i1 as int) =~= c@.subrange(i0 as int, i1 as int));
    assert(t.subrange(f0 as int, f1 as int) =~= c@.subrange(f0 as int, f1 as int));
    if i1 - i0 + (f1 - f0) == 0 {
        return None;
    }
    let mut negative = false;
    let mut exp: u128 = 0;
    if f1 < end {
        match read_exponent(c, f1, end) {
            None => {
                return None;
            },
            Some(x) => {
                negative = x.0;
                exp = x.1;
            },
        }
    }
    let ghost e = exponent(t);
    assert(is_float_token(t));
    // The exponent is exact, or beyond every length a text can have.
    assert(exp < 100_000_000_000_000_000_000 ==> exp as int == (if negative { -e } else { e }));
    assert(exp == 100_000_000_000_000_000_000 ==> (if negative { e <= -(exp as int) } else { e >= exp as int }));
    assert(!negative ==> e >= 0);
    let mut digits: Vec<char> = Vec::new();
    push_range(&mut digits, c, i0, i1);
    push_range(&mut digits, c, f0, f1);
    let ghost d = mantissa_digits(t);
    assert(digits@ =~= d);
    assert forall|k: int| 0 <= k < d.len() implies is_decimal_digit(#[trigger] d[k]) by {
        if k < i1 - i0 {
            assert(d[k] == c@.subrange(i0 as int, i1 as int)[k]);
        } else {
            assert(d[k] == c@.subrange(f0 as int, f1 as int)[k - (i1 - i0)]);
        }
    }
    let len: usize = digits.len();
    assert(digits@.subrange(0, len as int) =~= d);
    let shift: i128 = if negative { 0 - exp as i128 } else { exp as i128 };
    let p: i128 = (i1 - i0) as i128 + shift + 3;
    let ghost q = int_end(t) - int_start(t) + e + 3;
    assert(token_thousandths(t) == truncated_at(d, q));
    let r = truncated_brightness(&digits, p);
    proof {
        if exp == 100_000_000_000_000_000_000 {
            if negative {
                assert(p <= 0 && q <= 0);
            } else {
                lemma_truncated_far(d, p as int, q);
            }
        } else {
            assert(p == q);
        }
    }
    r
}

/// Reads a brightness from a decoder's text: a floating-point number in
/// [0, 255] (`200`, `87.25`, `.5`, `+1e2`), with trailing whitespace allowed,
/// in thousandths of a luma level, truncated.
pub fn parse_brightness(text: &str) -> (r: Option<u32>)
    ensures
        r is Some <==> brightness_of(text@) is Some,
        r is Some ==> r->Some_0 as int == brightness_of(text@)->Some_0,
{
    let c = string_to_chars(text);
    let end = trimmed_len(&c);
    parse_token(&c, end)
}

/// How many characters of `c` remain once its trailing whitespace is gone.
fn trimmed_len(c: &Vec<char>) -> (r: usize)
    ensures
        r <= c@.len(),
        trim_end(c@) == c@.take(r as int),
{
    let ghost s = c@;
    let mut end: usize = c.len();
    assert(s.take(end as int) =~= s);
    while end > 0 && is_space_char(c[end - 1])
        invariant
            s == c@,
            end <= c.len(),
            trim_end(s) == trim_end(s.take(end as int)),
        decreases end,
    {
        assert(s.take(end as int).drop_last() =~= s.take(end - 1));
        end = end - 1;
    }
    proof {
        lemma_trim_end_stops(s.take(end as int));
    }
    end
}

/// Whether `text` holds nothing but whitespace.
pub fn is_blank(text: &str) -> (r: bool)
    ensures
        r == (trim_end(text@).len() == 0),
{
    let c = string_to_chars(text);
    trimmed_len(&c) == 0
}

/// The brightness that a reading text states: `NoFrameError` where the text is
/// blank (nothing was decoded), `ParseError` where it is no floating-point
/// number in [0, 255].
pub fn read_brightness_text(text: &str) -> (r: Result<u32, SampleError>)
    ensures
        as_reading(r) == text_reading(text@),
{
    if is_blank(text) {
        Err(SampleError::NoFrameError)
    } else {
        match parse_brightness(text) {
            Some(v) => Ok(v),
            None => Err(SampleError::ParseError),
        }
    }
}

/// The value that a full decode reports for the average luma of its frame, as
/// found in the decoder's diagnostic output.
pub uninterp spec fn yavg_capture(s: Seq<char>) -> Option<Seq<char>>;

/// Relies on `regex::Regex::captures` with the pattern
/// `lavfi.signalstats.YAVG=(\d+\.\d+)`: the first group of the leftmost match,
/// if the pattern matches.
#[verifier::external_body]
fn find_yavg(text: &str) -> (r: Option<String>)
    ensures
        r is Some <==> yavg_capture(text@) is Some,
        r is Some ==> r->Some_0@ == yavg_capture(text@)->Some_0,
{
    let re = regex::Regex::new(r"lavfi.signalstats.YAVG=(\d+\.\d+)").unwrap();
    re.captures(text).map(|caps| caps[1].to_string())
}

/// The brightness from the value captured out of a full decode's report:
/// `NoFrameError` where none was found.
pub fn read_yavg_capture(cap: Option<&str>) -> (r: Result<u32, SampleError>)
    ensures
        cap is None ==> r == Err::<u32, SampleError>(SampleError::NoFrameError),
        cap is Some ==> as_reading(r) == text_reading(cap->Some_0@),
{
    match cap {
        None => Err(SampleError::NoFrameError),
        Some(t) => read_brightness_text(t),
    }
}

/// The brightness from a full decode's diagnostic output, where the statistics
/// filter prints the frame's average luma as a `key=value` line.
pub fn read_full_decode_output(stderr: &str) -> (r: Result<u32, SampleError>)
    ensures
        as_reading(r) == capture_reading(yavg_capture(stderr@)),
{
    let cap = find_yavg(stderr);
    match cap {
        None => read_yavg_capture(None),
        Some(t) => read_yavg_capture(Some(t.as_str())),
    }
}

/// The brightness from a nearest-keyframe probe's standard output, which holds
/// the average luma alone.
pub fn read_keyframe_output(stdout: &str) -> (r: Result<u32, SampleError>)
    ensures
        as_reading(r) == text_reading(stdout@),
{
    read_brightness_text(stdout)
}

/// What one run of the decoder yields: whether it started, whether it ended
/// with success, and what it printed on its standard and diagnostic outputs.
pub fn sample_outcome(
    strategy: SamplingStrategy,
    spawned: bool,
    succeeded: bool,
    stdout: &str,
    stderr: &str,
) -> (r: Result<u32, SampleError>)
    ensures
        !spawned ==> r == Err::<u32, SampleError>(SampleError::ProcessSpawnError),
        spawned && !succeeded ==> r == Err::<u32, SampleError>(SampleError::ProcessExitError),
        spawned && succeeded && strategy == SamplingStrategy::NearestKeyframe ==> as_reading(r)
            == text_reading(stdout@),
        spawned && succeeded && strategy == SamplingStrategy::FullDecode ==> as_reading(r)
            == capture_reading(yavg_capture(stderr@)),
{
    if !spawned {
        Err(SampleError::ProcessSpawnError)
    } else if !succeeded {
        Err(SampleError::ProcessExitError)
    } else {
        match strategy {
            SamplingStrategy::NearestKeyframe => read_keyframe_output(stdout),
            SamplingStrategy::FullDecode => read_full_decode_output(stderr),
        }
    }
}

/// The brightness that a cue goes on with: the sample where there is one; on a
/// failed sample, the error under `FailFast` and the configured midpoint under
/// `SubstituteDefault`.
pub fn resolve_sample(policy: FailurePolicy, sample: Result<u32, SampleError>, config: &Config) -> (r: Result<u32, SampleError>)
    ensures
        sample is Ok ==> r == sample,
        sample is Err && policy == FailurePolicy::FailFast ==> r == sample,
        sample is Err && policy == FailurePolicy::SubstituteDefault ==> r == Ok::<u32, SampleError>(config.midpoint),
{
    match sample {
        Ok(v) => Ok(v),
        Err(e) => match policy {
            FailurePolicy::FailFast => Err(e),
            FailurePolicy::SubstituteDefault => Ok(config.midpoint),
        },
    }
}

/// The filtergraph that a nearest-keyframe probe reads: the video seeked to the
/// timestamp, run through the statistics filter, cut after one frame.
pub open spec fn keyframe_graph(timestamp: Seq<char>, video: Seq<char>) -> Seq<char> {
    "movie="@ + video + ":seek_point="@ + timestamp + ",signalstats,trim=end_frame=1"@
}

/// The program that samples a frame under each strategy.
pub open spec fn decoder_program(strategy: SamplingStrategy) -> Seq<char> {
    match strategy {
        SamplingStrategy::NearestKeyframe => "ffprobe"@,
        SamplingStrategy::FullDecode => "ffmpeg"@,
    }
}

/// The arguments of the decoder run that samples the frame at `timestamp`
/// (seconds, as `ffmpeg_timestamp` writes them) of `video`. A probe prints the
/// frame's average luma alone on its standard output; a full decode prints it
/// as a `key=value` line on its diagnostic output.
pub open spec fn decoder_args(strategy: SamplingStrategy, timestamp: Seq<char>, video: Seq<char>) -> Seq<Seq<char>> {
    match strategy {
        SamplingStrategy::NearestKeyframe => seq![
            "-v"@,
            "quiet"@,
            "-hide_banner"@,
            "-f"@,
            "lavfi"@,
            keyframe_graph(timestamp, video),
            "-show_entries"@,
            "frame_tags=lavfi.signalstats.YAVG"@,
            "-of"@,
            "default=noprint_wrappers=1:nokey=1"@,
        ],
        SamplingStrategy::FullDecode => seq![
            "-y"@,
            "-hide_banner"@,
            "-accurate_seek"@,
            "-ss"@,
            timestamp,
            "-i"@,
            video,
            "-filter_complex"@,
            "signalstats,metadata=print:key=lavfi.signalstats.YAVG,trim=end_frame=0"@,
            "-an"@,
            "-f"@,
            "null"@,
            "-"@,
        ],
    }
}

/// The program to run to sample a frame under `strategy`.
pub fn sampler_program(strategy: SamplingStrategy) -> (r: String)
    ensures
        r@ == decoder_program(strategy),
{
    match strategy {
        SamplingStrategy::NearestKeyframe => String::from_str("ffprobe"),
        SamplingStrategy::FullDecode => String::from_str("ffmpeg"),
    }
}

fn push_str(v: &mut Vec<String>, s: &str)
    ensures
        final(v)@.len() == old(v)@.len() + 1,
        forall|k: int| 0 <= k < old(v)@.len() ==> (#[trigger] final(v)@[k]) == old(v)@[k],
        final(v)@[old(v)@.len() as int]@ == s@,
{
    v.push(String::from_str(s));
}

/// The arguments with which the sampler program is run for the frame at
/// `timestamp` of `video`.
pub fn sampler_args(strategy: SamplingStrategy, timestamp: &str, video: &str) -> (r: Vec<String>)
    ensures
        r@.map_values(|a: String| a@) == decoder_args(strategy, timestamp@, video@),
{
    let mut v: Vec<String> = Vec::new();
    match strategy {
        SamplingStrategy::NearestKeyframe => {
            let mut graph = String::from_str("movie=");
            graph.append(video);
            graph.append(":seek_point=");
            graph.append(timestamp);
            graph.append(",signalstats,trim=end_frame=1");
            push_str(&mut v, "-v");
            push_str(&mut v, "quiet");
            push_str(&mut v, "-hide_banner");
            push_str(&mut v, "-f");
            push_str(&mut v, "lavfi");
            push_str(&mut v, graph.as_str());
            push_str(&mut v, "-show_entries");
            push_str(&mut v, "frame_tags=lavfi.signalstats.YAVG");
            push_str(&mut v, "-of");
            push_str(&mut v, "default=noprint_wrappers=1:nokey=1");
        },
        SamplingStrategy::FullDecode => {
            push_str(&mut v, "-y");
            push_str(&mut v, "-hide_banner");
            push_str(&mut v, "-accurate_seek");
            push_str(&mut v, "-ss");
            push_str(&mut v, timestamp);
            push_str(&mut v, "-i");
            push_str(&mut v, video);
            push_str(&mut v, "-filter_complex");
            push_str(&mut v, "signalstats,metadata=print:key=lavfi.signalstats.YAVG,trim=end_frame=0");
            push_str(&mut v, "-an");
            push_str(&mut v, "-f");
            push_str(&mut v, "null");
            push_str(&mut v, "-");
        },
    }
    assert(v@.map_values(|a: String| a@) =~= decoder_args(strategy, timestamp@, video@));
    v
}

} // verus!

use vstd::prelude::*;

use crate::color::chars_to_string;

verus! {

/// The decimal digit of `n` in [0, 9].
pub open spec fn decimal_digit(n: int) -> char {
    ('0' as int + n) as char
}

/// `n` in decimal, without leading zeros.
pub open spec fn decimal(n: nat) -> Seq<char>
    decreases n,
{
    if n < 10 {
        seq![decimal_digit(n as int)]
    } else {
        decimal(n / 10) + seq![decimal_digit((n % 10) as int)]
    }
}

/// A duration of `ms` milliseconds as seconds with three decimals (`3723.500`),
/// a form that ffmpeg's time duration syntax reads.
pub open spec fn seconds_text(ms: nat) -> Seq<char> {
    decimal(ms / 1000) + seq![
        '.',
        decimal_digit(((ms % 1000) / 100) as int),
        decimal_digit(((ms % 100) / 10) as int),
        decimal_digit((ms % 10) as int),
    ]
}

/// The offset in milliseconds of (hours, minutes, seconds, milliseconds).
pub open spec fn stamp_millis(stamp: (u8, u8, u8, u16)) -> int {
    stamp.0 as int * 3_600_000 + stamp.1 as int * 60_000 + stamp.2 as int * 1000 + stamp.3 as int
}

fn push_decimal(v: &mut Vec<char>, n: u64)
    ensures
        final(v)@ == old(v)@ + decimal(n as nat),
    decreases n,
{
    if n >= 10 {
        push_decimal(v, n / 10);
    }
    v.push(((n % 10) as u8 + 48) as char);
    assert(final(v)@ =~= old(v)@ + decimal(n as nat));
}

/// The offset of (hours, minutes, seconds, milliseconds) in milliseconds. Fields
/// beyond their usual ranges count in full.
pub fn timestamp_millis(stamp: (u8, u8, u8, u16)) -> (r: u64)
    ensures
        r as int == stamp_millis(stamp),
{
    stamp.0 as u64 * 3_600_000 + stamp.1 as u64 * 60_000 + stamp.2 as u64 * 1000 + stamp.3 as u64
}

/// The offset of (hours, minutes, seconds, milliseconds) as seconds with three
/// decimals, the form in which a decoder is asked to seek.
pub fn ffmpeg_timestamp(stamp: (u8, u8, u8, u16)) -> (r: String)
    ensures
        r@ == seconds_text(stamp_millis(stamp) as nat),
{
    let ms = timestamp_millis(stamp);
    let mut v: Vec<char> = Vec::new();
    push_decimal(&mut v, ms / 1000);
    let frac = ms % 1000;
    v.push('.');
    v.push(((frac / 100) as u8 + 48) as char);
    v.push((((frac % 100) / 10) as u8 + 48) as char);
    v.push(((frac % 10) as u8 + 48) as char);
    assert(frac % 100 == ms % 100 && frac % 10 == ms % 10) by (nonlinear_arith)
        requires
            frac == ms % 1000;
    assert(v@ =~= seconds_text(ms as nat));
    chars_to_string(&v)
}

/// A time offset within a video, as a caption track writes it.
#[derive(Clone, Copy, Debug, PartialEq, Eq, Structural)]
pub struct Timestamp {
    pub hours: u8,
    pub minutes: u8,
    pub seconds: u8,
    pub milliseconds: u16,
}

impl Timestamp {
    pub open spec fn as_tuple(self) -> (u8, u8, u8, u16) {
        (self.hours, self.minutes, self.seconds, self.milliseconds)
    }

    /// The fields as (hours, minutes, seconds, milliseconds).
    pub fn get(&self) -> (r: (u8, u8, u8, u16))
        ensures
            r == self.as_tuple(),
    {
        (self.hours, self.minutes, self.seconds, self.milliseconds)
    }
}

/// One timed caption entry.
#[derive(Debug)]
pub struct Cue {
    pub num: usize,
    pub start: Timestamp,
    pub end: Timestamp,
    pub text: String,
}

} // verus!

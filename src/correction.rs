use vstd::prelude::*;
use vstd::arithmetic::div_mod::{lemma_div_is_ordered, lemma_div_pos_is_pos};
use vstd::arithmetic::mul::lemma_mul_inequality;

use crate::color::{clamp_channel, Rgb};

verus! {

/// Brightness values are fixed point: thousandths of a luma level, so the
/// full range [0, 255] is [0, 255_000].
pub const BRIGHTNESS_SCALE: u32 = 1000;

/// The largest brightness, 255 luma levels.
pub const MAX_BRIGHTNESS: u32 = 255_000;

/// Coefficients are fixed point: thousandths, so [0, 1] is [0, 1000].
pub const COEFFICIENT_SCALE: u32 = 1000;

/// `n / d` rounded to the nearest integer, halves away from zero.
pub open spec fn round_div(n: int, d: int) -> int {
    if n >= 0 {
        (2 * n + d) / (2 * d)
    } else {
        -((-2 * n + d) / (2 * d))
    }
}

/// `round((b - m) * c)` for brightness `b`, midpoint `m` (both in thousandths of
/// a luma level) and coefficient `c` (in thousandths).
pub open spec fn correction_spec(b: int, m: int, c: int) -> int {
    round_div((b - m) * c, 1_000_000)
}

/// What a run is configured with.
#[derive(Clone, Copy, Debug, PartialEq, Eq, Structural)]
pub struct Config {
    /// The neutral brightness, in thousandths of a luma level.
    pub midpoint: u32,
    /// How strongly colors are pulled toward the midpoint, in thousandths.
    pub coefficient: u32,
    /// The color given to a cue that has none.
    pub default_color: Rgb,
}

/// A configuration value out of range.
#[derive(Clone, Copy, Debug, PartialEq, Eq, Structural)]
pub enum ConfigError {
    CoefficientOutOfRange,
    MidpointOutOfRange,
}

impl Config {
    pub open spec fn wf(self) -> bool {
        self.coefficient <= COEFFICIENT_SCALE && self.midpoint <= MAX_BRIGHTNESS
    }

    /// A configuration, refused where the coefficient lies outside [0, 1] or the
    /// midpoint outside [0, 255].
    pub fn new(midpoint: u32, coefficient: u32, default_color: Rgb) -> (r: Result<Config, ConfigError>)
        ensures
            coefficient > COEFFICIENT_SCALE ==> r == Err::<Config, ConfigError>(ConfigError::CoefficientOutOfRange),
            coefficient <= COEFFICIENT_SCALE && midpoint > MAX_BRIGHTNESS ==> r == Err::<Config, ConfigError>(ConfigError::MidpointOutOfRange),
            coefficient <= COEFFICIENT_SCALE && midpoint <= MAX_BRIGHTNESS ==> r == Ok::<Config, ConfigError>(Config { midpoint, coefficient, default_color }),
            r is Ok ==> r->Ok_0.wf(),
    {
        if coefficient > COEFFICIENT_SCALE {
            Err(ConfigError::CoefficientOutOfRange)
        } else if midpoint > MAX_BRIGHTNESS {
            Err(ConfigError::MidpointOutOfRange)
        } else {
            Ok(Config { midpoint, coefficient, default_color })
        }
    }

    /// The usual configuration: midpoint 127, coefficient 0.25, default color
    /// `#7f7f7f`.
    pub fn standard() -> (r: Config)
        ensures
            r.wf(),
            r.midpoint == 127_000,
            r.coefficient == 250,
            r.default_color == (Rgb { r: 127, g: 127, b: 127 }),
    {
        Config { midpoint: 127_000, coefficient: 250, default_color: Rgb { r: 127, g: 127, b: 127 } }
    }
}

/// The per-channel correction for a frame of the given brightness (in
/// thousandths of a luma level): `round((brightness - midpoint) * coefficient)`,
/// halves rounded away from zero.
pub fn get_correction(brightness: u32, config: &Config) -> (r: i32)
    requires
        config.wf(),
    ensures
        r as int == correction_spec(brightness as int, config.midpoint as int, config.coefficient as int),
{
    let diff: i64 = brightness as i64 - config.midpoint as i64;
    let c: i64 = config.coefficient as i64;
    assert(-255_000_000 <= diff * c <= 4_294_967_295_000) by (nonlinear_arith)
        requires
            -255_000 <= diff <= 4_294_967_295,
            0 <= c <= 1000;
    let n: i64 = diff * c;
    let q: i64 = if n >= 0 {
        let t: i64 = 2 * n + 1_000_000;
        assert(0 <= t / 2_000_000 <= 4_294_968) by (nonlinear_arith)
            requires
                0 <= t <= 8_589_935_590_000;
        t / 2_000_000
    } else {
        let t: i64 = 1_000_000 - 2 * n;
        assert(0 <= t / 2_000_000 <= 256) by (nonlinear_arith)
            requires
                0 <= t <= 511_000_000;
        -(t / 2_000_000)
    };
    q as i32
}

/// Correction grows with brightness: a brighter frame never gets a smaller
/// correction than a darker one, for any midpoint and any coefficient in [0, 1].
pub proof fn lemma_correction_monotonic(b1: int, b2: int, m: int, c: int)
    requires
        b1 <= b2,
        0 <= c <= 1000,
    ensures
        correction_spec(b1, m, c) <= correction_spec(b2, m, c),
{
    let n1 = (b1 - m) * c;
    let n2 = (b2 - m) * c;
    lemma_mul_inequality(b1 - m, b2 - m, c);
    if n1 >= 0 {
        lemma_div_is_ordered(2 * n1 + 1_000_000, 2 * n2 + 1_000_000, 2_000_000);
    } else if n2 < 0 {
        lemma_div_is_ordered(-2 * n2 + 1_000_000, -2 * n1 + 1_000_000, 2_000_000);
    } else {
        lemma_div_pos_is_pos(-2 * n1 + 1_000_000, 2_000_000);
        lemma_div_pos_is_pos(2 * n2 + 1_000_000, 2_000_000);
    }
}

/// A channel value in [0, 255] moved by any correction and clamped stays in
/// [0, 255].
pub proof fn lemma_corrected_channel_in_range(v: int, b: int, m: int, c: int)
    requires
        0 <= v <= 255,
        0 <= c <= 1000,
    ensures
        0 <= clamp_channel(v + correction_spec(b, m, c)) <= 255,
{
}

} // verus!

use vstd::prelude::*;

use crate::channeled::Channeled;
use crate::fixed::{lemma_round_div_bounds, round_div, round_div_wide, VALUE_ONE};
use crate::framed::SampleMapper;

verus! {

// The leveling stages squeeze bar magnitudes into the unit range and
// quantize them. The decibel map itself needs a logarithm and is applied
// by the caller before these stages; everything after it is exact.

/// Clamps a fixed-point value into the unit range [0, VALUE_ONE].
pub open spec fn spec_clamp01(v: int) -> int {
    if v < 0 {
        0
    } else if v > VALUE_ONE as int {
        VALUE_ONE as int
    } else {
        v
    }
}

/// Maps [min, max] onto the unit range: below the floor everything is 0,
/// above the ceiling everything is full scale, and in between the value
/// is scaled linearly. A degenerate range keeps only the two extremes.
pub open spec fn spec_normalize(min: int, max: int, v: int) -> int {
    if max <= min {
        if v <= min {
            0
        } else {
            VALUE_ONE as int
        }
    } else if v < min {
        0
    } else if v > max {
        VALUE_ONE as int
    } else {
        round_div((v - min) * (VALUE_ONE as int), max - min)
    }
}

/// Quantizes a unit-range value onto `levels` steps; negative values
/// collapse to zero and a zero level count acts as one.
pub open spec fn spec_discrete(levels: u32, v: int) -> int {
    let l = if levels == 0 {
        1int
    } else {
        levels as int
    };
    if v < 0 {
        0
    } else {
        round_div((v * l / (VALUE_ONE as int)) * (VALUE_ONE as int), l)
    }
}

/// Collapses a channeled value into one number: stereo averages the two
/// sides (this stage flattens channels by contract).
pub open spec fn spec_flatten(v: Channeled<i64>) -> int {
    match v {
        Channeled::Mono(x) => x as int,
        Channeled::Stereo(a, b) => round_div(a + b, 2),
    }
}

/// Applies a per-channel map to a channeled value in spec.
pub open spec fn spec_per_channel(v: Channeled<i64>, f: spec_fn(int) -> int) -> Channeled<i64> {
    match v {
        Channeled::Mono(x) => Channeled::Mono(f(x as int) as i64),
        Channeled::Stereo(a, b) => Channeled::Stereo(f(a as int) as i64, f(b as int) as i64),
    }
}

/// Clamping is idempotent: a second application changes nothing, for
/// every input inside or outside the unit range.
pub proof fn lemma_clamp01_idempotent(v: int)
    ensures
        spec_clamp01(spec_clamp01(v)) == spec_clamp01(v),
{
}

/// The clamp output always lies inside the unit range.
pub proof fn lemma_clamp01_range(v: int)
    ensures
        0 <= spec_clamp01(v) <= VALUE_ONE as int,
{
}

/// Normalizing always lands inside the unit range.
pub proof fn lemma_normalize_range(min: int, max: int, v: int)
    ensures
        0 <= spec_normalize(min, max, v) <= VALUE_ONE as int,
{
    if max <= min {
    } else if v < min {
    } else if v > max {
    } else {
        lemma_round_div_bounds((v - min) * (VALUE_ONE as int), max - min, 0, VALUE_ONE as int);
        assert(0 * (max - min) <= (v - min) * (VALUE_ONE as int) && (v - min) * (VALUE_ONE
            as int) <= (VALUE_ONE as int) * (max - min)) by (nonlinear_arith)
            requires
                min <= v <= max,
                min < max,
        ;
    }
}

/// Over the whole unit range itself, normalizing is the clamp, and hence
/// idempotent; a narrower range moves interior points and a second
/// application then moves them again.
pub proof fn lemma_normalize_unit_is_clamp(v: int)
    ensures
        spec_normalize(0, VALUE_ONE as int, v) == spec_clamp01(v),
        spec_normalize(0, VALUE_ONE as int, spec_normalize(0, VALUE_ONE as int, v))
            == spec_normalize(0, VALUE_ONE as int, v),
{
    let s = VALUE_ONE as int;
    if 0 <= v <= s {
        assert(round_div(v * s, s) == v) by {
            lemma_round_div_bounds(v * s, s, v, v);
        }
    }
    let w = spec_normalize(0, s, v);
    assert(w == spec_clamp01(v));
    if 0 <= w <= s {
        assert(round_div(w * s, s) == w) by {
            lemma_round_div_bounds(w * s, s, w, w);
        }
    }
}

/// Clamps every channel into the unit range.
pub struct ClampNormalized;

impl SampleMapper<Channeled<i64>, Channeled<i64>> for ClampNormalized {
    open spec fn spec_apply(&self, v: Channeled<i64>) -> Channeled<i64> {
        spec_per_channel(v, |x: int| spec_clamp01(x))
    }

    fn apply(&self, v: Channeled<i64>) -> (r: Channeled<i64>) {
        let clamp = |x: i64| -> (c: i64)
            ensures
                c == spec_clamp01(x as int),
            {
                if x < 0 {
                    0
                } else if x > VALUE_ONE {
                    VALUE_ONE
                } else {
                    x
                }
            };
        match v {
            Channeled::Mono(x) => Channeled::Mono(clamp(x)),
            Channeled::Stereo(a, b) => Channeled::Stereo(clamp(a), clamp(b)),
        }
    }
}

/// Scales every channel from the dynamic range [min, max] onto the unit
/// range.
pub struct NormalizeBetween {
    min: i64,
    max: i64,
}

impl NormalizeBetween {
    pub closed spec fn spec_min(&self) -> int {
        self.min as int
    }

    pub closed spec fn spec_max(&self) -> int {
        self.max as int
    }

    pub fn new(min: i64, max: i64) -> (r: NormalizeBetween)
        requires
            min < max,
        ensures
            r.spec_min() == min,
            r.spec_max() == max,
    {
        NormalizeBetween { min, max }
    }
}

impl SampleMapper<Channeled<i64>, Channeled<i64>> for NormalizeBetween {
    open spec fn spec_apply(&self, v: Channeled<i64>) -> Channeled<i64> {
        spec_per_channel(v, |x: int| spec_normalize(self.spec_min(), self.spec_max(), x))
    }

    fn apply(&self, v: Channeled<i64>) -> (r: Channeled<i64>) {
        let min = self.min;
        let max = self.max;
        let norm = |x: i64| -> (c: i64)
            ensures
                c == spec_normalize(min as int, max as int, x as int),
            {
                if max <= min {
                    if x <= min {
                        0
                    } else {
                        VALUE_ONE
                    }
                } else if x < min {
                    0
                } else if x > max {
                    VALUE_ONE
                } else {
                    let span = (max as i128) - (min as i128);
                    let scaled = ((x as i128) - (min as i128)) * (VALUE_ONE as i128);
                    let q = round_div_wide(scaled, span);
                    proof {
                        lemma_round_div_bounds(scaled as int, span as int, 0, VALUE_ONE as int);
                        assert(0 * span <= scaled && scaled <= (VALUE_ONE as i128) * span)
                            by (nonlinear_arith)
                            requires
                                min <= x <= max,
                                (min as i128) < (max as i128),
                                span == (max as i128) - (min as i128),
                                scaled == ((x as i128) - (min as i128)) * (VALUE_ONE as i128),
                        ;
                    }
                    q as i64
                }
            };
        match v {
            Channeled::Mono(x) => Channeled::Mono(norm(x)),
            Channeled::Stereo(a, b) => Channeled::Stereo(norm(a), norm(b)),
        }
    }
}

/// Quantizes every channel onto a fixed number of levels.
pub struct DiscreteLevels {
    levels: u32,
}

impl DiscreteLevels {
    pub closed spec fn spec_levels(&self) -> u32 {
        self.levels
    }

    pub fn new(levels: u32) -> (r: DiscreteLevels)
        ensures
            r.spec_levels() == levels,
    {
        DiscreteLevels { levels }
    }
}

impl SampleMapper<Channeled<i64>, Channeled<i64>> for DiscreteLevels {
    open spec fn spec_apply(&self, v: Channeled<i64>) -> Channeled<i64> {
        spec_per_channel(v, |x: int| spec_discrete(self.spec_levels(), x))
    }

    fn apply(&self, v: Channeled<i64>) -> (r: Channeled<i64>) {
        let levels = self.levels;
        let disc = |x: i64| -> (c: i64)
            ensures
                c == spec_discrete(levels, x as int),
            {
                let l: i128 = if levels == 0 {
                    1
                } else {
                    levels as i128
                };
                if x < 0 {
                    0
                } else {
                    proof {
                        assert((x as i128) * l <= 0x8000_0000_0000_0000_0000_0000i128 && 0 <= (x
                            as i128) * l) by (nonlinear_arith)
                            requires
                                0 <= (x as i128) <= 0x7fff_ffff_ffff_ffffi128,
                                1 <= l <= 0x1_0000_0000i128,
                        ;
                    }
                    let step = (x as i128) * l / (VALUE_ONE as i128);
                    proof {
                        let xl = (x as i128) * l as int;
                        vstd::arithmetic::div_mod::lemma_div_pos_is_pos(xl, VALUE_ONE as int);
                        vstd::arithmetic::div_mod::lemma_fundamental_div_mod(
                            xl,
                            VALUE_ONE as int,
                        );
                        vstd::arithmetic::div_mod::lemma_mod_division_less_than_divisor(
                            xl,
                            VALUE_ONE as int,
                        );
                        assert(0 <= step && step * (VALUE_ONE as int) <= xl) by (nonlinear_arith)
                            requires
                                step == xl / (VALUE_ONE as int),
                                xl == (VALUE_ONE as int) * (xl / (VALUE_ONE as int)) + xl % (
                                VALUE_ONE as int),
                                0 <= xl % (VALUE_ONE as int),
                                0 <= xl / (VALUE_ONE as int),
                        ;
                    }
                    let q = round_div_wide(step * (VALUE_ONE as i128), l);
                    proof {
                        assert(step * (VALUE_ONE as int) <= (x as int) * l) by (nonlinear_arith)
                            requires
                                step * (VALUE_ONE as int) <= (x as i128) * l as int,
                        ;
                        lemma_round_div_bounds(
                            (step * (VALUE_ONE as i128)) as int,
                            l as int,
                            0,
                            x as int,
                        );
                    }
                    q as i64
                }
            };
        match v {
            Channeled::Mono(x) => Channeled::Mono(disc(x)),
            Channeled::Stereo(a, b) => Channeled::Stereo(disc(a), disc(b)),
        }
    }
}

/// Averages the two stereo sides into one value per bar.
pub struct FlattenChannels;

impl SampleMapper<Channeled<i64>, i64> for FlattenChannels {
    open spec fn spec_apply(&self, v: Channeled<i64>) -> i64 {
        spec_flatten(v) as i64
    }

    fn apply(&self, v: Channeled<i64>) -> (r: i64) {
        match v {
            Channeled::Mono(x) => x,
            Channeled::Stereo(a, b) => {
                let q = round_div_wide((a as i128) + (b as i128), 2);
                proof {
                    let lo = vstd::math::min(a as int, b as int);
                    let hi = vstd::math::max(a as int, b as int);
                    assert(lo * 2 <= a + b <= hi * 2);
                    lemma_round_div_bounds(a as int + b as int, 2, lo, hi);
                }
                q as i64
            },
        }
    }
}

} // verus!

use vstd::prelude::*;

use crate::fraction::Fraction;
use crate::savitzky_golay::SavitzkyGolayConfig;
use crate::smoothing::alpha_sane;

verus! {

/// The validated pipeline settings, over exact values: smoothing factors
/// as rationals, decibel bounds on the fixed-point grid.
#[derive(Clone, Copy, Debug)]
pub struct VizPipelineConfig {
    /// Output frames per second.
    pub fps: u64,
    /// The analysis window duration, in milliseconds.
    pub data_window_ms: u64,
    /// The smoothing factor of the first time-smoothing stage.
    pub alpha0: Fraction,
    /// The smoothing factor of the second time-smoothing stage.
    pub alpha1: Fraction,
    /// The first polynomial smoothing pass, across spectrum bins.
    pub smoothing0: SavitzkyGolayConfig,
    /// The second polynomial smoothing pass, across bars.
    pub smoothing1: SavitzkyGolayConfig,
    /// The bottom of the dynamic range, in fixed-point decibels.
    pub min_db: i64,
    /// The top of the dynamic range, in fixed-point decibels.
    pub max_db: i64,
    /// How the spectrum folds into bars.
    pub binning: VizBinningConfig,
}

/// The bar layout settings.
#[derive(Clone, Copy, Debug)]
pub struct VizBinningConfig {
    /// The desired number of bars.
    pub bins: usize,
    /// The highest frequency of interest, in Hz.
    pub fmax: Fraction,
    /// The lowest frequency of interest, in Hz.
    pub fmin: Fraction,
    /// The perceptual spacing exponent.
    pub gamma: Fraction,
    /// How many distinct heights a bar may take.
    pub discrete_levels: u32,
}

/// The reasons a configuration is rejected, in the order they are
/// checked; nothing is ever silently corrected.
#[derive(Clone, Copy, Debug, PartialEq, Eq, Structural)]
pub enum ConfigFault {
    FpsTooLow,
    WindowTooShort,
    Alpha0OutOfRange,
    Alpha1OutOfRange,
    Smoothing0Invalid,
    Smoothing1Invalid,
    DbRangeEmpty,
    TooFewBins,
    FrequencyRangeInvalid,
    GammaInvalid,
    TooFewLevels,
}

/// A frequency bound usable by the bar search: positive, well formed,
/// and small enough for the exact comparisons.
pub open spec fn spec_freq_ok(f: Fraction) -> bool {
    &&& f.wf()
    &&& 0 < f.num()
    &&& f.num() <= 0x1_0000_0000_0000
    &&& f.den() <= 0x1_0000_0000
}

/// The verdict validation reaches, fault by fault in checking order.
pub open spec fn spec_validate(cfg: VizPipelineConfig) -> Result<
    VizPipelineConfig,
    ConfigFault,
> {
    if cfg.fps <= 1 {
        Err(ConfigFault::FpsTooLow)
    } else if cfg.data_window_ms <= 1 {
        Err(ConfigFault::WindowTooShort)
    } else if !(alpha_sane(cfg.alpha0) && cfg.alpha0.wf()) {
        Err(ConfigFault::Alpha0OutOfRange)
    } else if !(alpha_sane(cfg.alpha1) && cfg.alpha1.wf()) {
        Err(ConfigFault::Alpha1OutOfRange)
    } else if !cfg.smoothing0.spec_sane() {
        Err(ConfigFault::Smoothing0Invalid)
    } else if !cfg.smoothing1.spec_sane() {
        Err(ConfigFault::Smoothing1Invalid)
    } else if cfg.min_db >= cfg.max_db {
        Err(ConfigFault::DbRangeEmpty)
    } else if !(1 < cfg.binning.bins <= 0x10000) {
        Err(ConfigFault::TooFewBins)
    } else if !(spec_freq_ok(cfg.binning.fmin) && spec_freq_ok(cfg.binning.fmax)
        && cfg.binning.fmin.num() * cfg.binning.fmax.den() < cfg.binning.fmax.num()
        * cfg.binning.fmin.den() && cfg.binning.fmin.num() <= 0x1_0000_0000) {
        Err(ConfigFault::FrequencyRangeInvalid)
    } else if !(cfg.binning.gamma.wf() && 0 < cfg.binning.gamma.num()) {
        Err(ConfigFault::GammaInvalid)
    } else if cfg.binning.discrete_levels <= 2 {
        Err(ConfigFault::TooFewLevels)
    } else {
        Ok(cfg)
    }
}

/// Checks every rule the pipeline's stages rely on, reporting the first
/// violated one; a configuration that passes is returned unchanged and
/// satisfies every stage's construction bound.
pub fn validate_config(cfg: &VizPipelineConfig) -> (r: Result<VizPipelineConfig, ConfigFault>)
    requires
        cfg.alpha0.wf(),
        cfg.alpha1.wf(),
        cfg.binning.fmin.wf(),
        cfg.binning.fmax.wf(),
        cfg.binning.gamma.wf(),
    ensures
        r == spec_validate(*cfg),
        r matches Ok(out) ==> {
            &&& out == *cfg
            &&& alpha_sane(cfg.alpha0)
            &&& alpha_sane(cfg.alpha1)
            &&& cfg.smoothing0.spec_sane()
            &&& cfg.smoothing1.spec_sane()
            &&& cfg.min_db < cfg.max_db
            &&& 1 < cfg.binning.bins <= 0x10000
            &&& cfg.binning.fmin.num() * cfg.binning.fmax.den() < cfg.binning.fmax.num()
                * cfg.binning.fmin.den()
        },
{
    if cfg.fps <= 1 {
        return Err(ConfigFault::FpsTooLow);
    }
    if cfg.data_window_ms <= 1 {
        return Err(ConfigFault::WindowTooShort);
    }
    if !alpha_in_range(&cfg.alpha0) {
        return Err(ConfigFault::Alpha0OutOfRange);
    }
    if !alpha_in_range(&cfg.alpha1) {
        return Err(ConfigFault::Alpha1OutOfRange);
    }
    if !smoothing_ok(&cfg.smoothing0) {
        return Err(ConfigFault::Smoothing0Invalid);
    }
    if !smoothing_ok(&cfg.smoothing1) {
        return Err(ConfigFault::Smoothing1Invalid);
    }
    if cfg.min_db >= cfg.max_db {
        return Err(ConfigFault::DbRangeEmpty);
    }
    if !(cfg.binning.bins > 1 && cfg.binning.bins <= 0x10000) {
        return Err(ConfigFault::TooFewBins);
    }
    if !freq_range_ok(&cfg.binning.fmin, &cfg.binning.fmax) {
        return Err(ConfigFault::FrequencyRangeInvalid);
    }
    if cfg.binning.gamma.numer() <= 0 {
        return Err(ConfigFault::GammaInvalid);
    }
    if cfg.binning.discrete_levels <= 2 {
        return Err(ConfigFault::TooFewLevels);
    }
    Ok(*cfg)
}

/// Whether a smoothing factor lies in (0, 1] with a small denominator.
fn alpha_in_range(a: &Fraction) -> (r: bool)
    requires
        a.wf(),
    ensures
        r == alpha_sane(*a),
{
    let num = a.numer();
    let den = a.denom();
    1 <= num && num as u64 <= den && den <= 0x4000_0000
}

/// Whether a polynomial smoothing setup is inside the synthesis bounds.
/// A degree of zero is a plain moving average and is allowed.
fn smoothing_ok(s: &SavitzkyGolayConfig) -> (r: bool)
    ensures
        r == s.spec_sane(),
{
    3 <= s.window_size && s.window_size <= 60001 && s.window_size % 2 == 1
        && s.degree <= s.window_size - 1 && s.order <= 30000
}

/// Whether the frequency bounds are positive, inside the comparison
/// range, and properly ordered.
fn freq_range_ok(fmin: &Fraction, fmax: &Fraction) -> (r: bool)
    requires
        fmin.wf(),
        fmax.wf(),
    ensures
        r == (spec_freq_ok(*fmin) && spec_freq_ok(*fmax) && fmin.num() * fmax.den() < fmax.num()
            * fmin.den() && fmin.num() <= 0x1_0000_0000),
{
    let a = fmin.numer();
    let b = fmin.denom();
    let c = fmax.numer();
    let d = fmax.denom();
    if !(0 < a && a <= 0x1_0000_0000 && b <= 0x1_0000_0000) {
        return false;
    }
    if !(0 < c && c <= 0x1_0000_0000_0000 && d <= 0x1_0000_0000) {
        return false;
    }
    proof {
        crate::fraction::lemma_i64_prod_in_i128(fmin.num(), fmax.den());
        crate::fraction::lemma_i64_prod_in_i128(fmax.num(), fmin.den());
    }
    (a as i128) * (d as i128) < (c as i128) * (b as i128)
}

} // verus!

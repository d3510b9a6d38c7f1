use vis_rs::config::{validate_config, ConfigFault, VizBinningConfig, VizPipelineConfig};
use vis_rs::fixed::VALUE_ONE;
use vis_rs::fraction::Fraction;
use vis_rs::savitzky_golay::SavitzkyGolayConfig;

fn base_config() -> VizPipelineConfig {
    VizPipelineConfig {
        fps: 60,
        data_window_ms: 50,
        alpha0: Fraction::new(2, 5).unwrap(),
        alpha1: Fraction::new(3, 5).unwrap(),
        smoothing0: SavitzkyGolayConfig { window_size: 5, degree: 2, order: 0 },
        smoothing1: SavitzkyGolayConfig { window_size: 5, degree: 2, order: 0 },
        min_db: -60 * VALUE_ONE,
        max_db: 0,
        binning: VizBinningConfig {
            bins: 48,
            fmax: Fraction::new(14000, 1).unwrap(),
            fmin: Fraction::new(42, 1).unwrap(),
            gamma: Fraction::new(23, 10).unwrap(),
            discrete_levels: 48,
        },
    }
}

#[test]
fn accepts_a_sound_configuration() {
    assert!(validate_config(&base_config()).is_ok());
}

#[test]
fn accepts_degree_zero_smoothing() {
    let mut cfg = base_config();
    cfg.smoothing0.degree = 0;
    assert!(validate_config(&cfg).is_ok());
}

#[test]
fn rejects_each_bad_field_with_its_fault() {
    let mut cfg = base_config();
    cfg.fps = 1;
    assert_eq!(validate_config(&cfg).unwrap_err(), ConfigFault::FpsTooLow);

    let mut cfg = base_config();
    cfg.alpha0 = Fraction::new(3, 2).unwrap();
    assert_eq!(validate_config(&cfg).unwrap_err(), ConfigFault::Alpha0OutOfRange);

    let mut cfg = base_config();
    cfg.smoothing1.window_size = 4;
    assert_eq!(validate_config(&cfg).unwrap_err(), ConfigFault::Smoothing1Invalid);

    let mut cfg = base_config();
    cfg.min_db = 0;
    cfg.max_db = 0;
    assert_eq!(validate_config(&cfg).unwrap_err(), ConfigFault::DbRangeEmpty);

    let mut cfg = base_config();
    cfg.binning.bins = 1;
    assert_eq!(validate_config(&cfg).unwrap_err(), ConfigFault::TooFewBins);

    let mut cfg = base_config();
    cfg.binning.fmin = Fraction::new(20000, 1).unwrap();
    assert_eq!(validate_config(&cfg).unwrap_err(), ConfigFault::FrequencyRangeInvalid);

    let mut cfg = base_config();
    cfg.binning.discrete_levels = 2;
    assert_eq!(validate_config(&cfg).unwrap_err(), ConfigFault::TooFewLevels);
}

use vis_rs::binner::{compute_bin_indexes, BinConfig, Binner};
use vis_rs::channeled::Channeled;
use vis_rs::fixed::VALUE_ONE;
use vis_rs::framed::FramedMapper;
use vis_rs::fraction::Fraction;

fn gamma_curve(input_size: usize, sample_rate: usize, fmin: f64, fmax: f64, gamma: f64) -> Vec<i64> {
    let mut out = Vec::with_capacity(input_size);
    let mut running = 0i64;
    for i in 0..input_size {
        let hz = (i as f64) * (sample_rate as f64) / 2.0 / (input_size as f64);
        let x = if hz <= fmin {
            0.0
        } else {
            (((hz - fmin) / (fmax - fmin)).powf(1.0 / gamma)).min(1.0)
        };
        let mut v = (x * (VALUE_ONE as f64)).round() as i64;
        if v > VALUE_ONE {
            v = VALUE_ONE;
        }
        if v < running {
            v = running;
        }
        running = v;
        out.push(v);
    }
    out
}

fn reference_config() -> BinConfig {
    BinConfig {
        bins: 10,
        input_size: 1024,
        sample_rate: 44100,
        fmin: Fraction::new(42, 1).unwrap(),
        fmax: Fraction::new(14000, 1).unwrap(),
        gamma: Fraction::new(23, 10).unwrap(),
    }
}

#[test]
fn reference_boundaries() {
    let cfg = reference_config();
    let curve = gamma_curve(1024, 44100, 42.0, 14000.0, 2.3);
    let bounds = compute_bin_indexes(&cfg, &curve).unwrap();
    assert_eq!(bounds.len(), 11, "got {:?}", bounds);
    for w in bounds.windows(2) {
        assert!(w[0] < w[1]);
    }
    // The first boundary is the first source bin whose frequency reaches
    // 42 Hz: bin 2, since one bin spans 44100/2/1024 Hz.
    assert_eq!(bounds[0], 2);
}

#[test]
fn binner_sums_and_divides() {
    let cfg = BinConfig {
        bins: 2,
        input_size: 8,
        sample_rate: 16000,
        fmin: Fraction::new(1, 1).unwrap(),
        fmax: Fraction::new(7000, 1).unwrap(),
        gamma: Fraction::new(1, 1).unwrap(),
    };
    let curve = gamma_curve(8, 16000, 1.0, 7000.0, 1.0);
    let mut binner = Binner::new(&cfg, &curve).unwrap();
    let n_bins = binner.map_frame_size(8);
    assert!(n_bins >= 2);
    let input: Vec<Channeled<i64>> = (0..8).map(|i| Channeled::Mono((i as i64 + 1) * 8)).collect();
    let mut out = Vec::new();
    assert_eq!(binner.map(&input, &mut out), Ok(true));
    assert_eq!(out.len(), n_bins);
    // Every output is a sum over its source range divided by the input
    // length of 8; with these inputs each bar is a whole number.
    for v in &out {
        match v {
            Channeled::Mono(_) => {}
            _ => panic!("mono input must give mono bars"),
        }
    }
    // A frame of the wrong length produces no output, not an error.
    let short = vec![Channeled::Mono(1); 4];
    assert_eq!(binner.map(&short, &mut out), Ok(false));
}

#[test]
fn sine_concentrates_in_one_bar() {
    // A pure tone inside one bar's frequency range must dominate every
    // other bar after windowing, spectrum, and binning.
    let n = 1024usize;
    let rate = 44100usize;
    let tone = 1000.0f64;
    let half: Vec<i64> = (0..(n + 1) / 2)
        .map(|i| {
            let tau = std::f64::consts::TAU;
            let x = i as f64 / ((n - 1) as f64);
            let c = 0.3635819 - 0.4891775 * (tau * x).cos() + 0.1365995 * (2.0 * tau * x).cos()
                - 0.0106411 * (3.0 * tau * x).cos();
            (c * (VALUE_ONE as f64)).round() as i64
        })
        .collect();
    let mut window = vis_rs::window::MemoizedWindowingMapper::from_half(&half, n);
    let samples: Vec<Channeled<i64>> = (0..n)
        .map(|t| {
            let v = (std::f64::consts::TAU * tone * (t as f64) / (rate as f64)).sin();
            Channeled::Mono((v * (VALUE_ONE as f64)) as i64)
        })
        .collect();
    let mut windowed = Vec::new();
    assert_eq!(window.map(&samples, &mut windowed), Ok(true));
    // Real-input discrete Fourier transform magnitudes, skipping the
    // zero-frequency term, computed directly here as the reference
    // transform.
    let half_n = n / 2;
    let mut mags: Vec<Channeled<i64>> = Vec::with_capacity(half_n);
    for k in 1..=half_n {
        let mut re = 0.0f64;
        let mut im = 0.0f64;
        for (t, v) in windowed.iter().enumerate() {
            let x = match v {
                Channeled::Mono(x) => *x as f64 / VALUE_ONE as f64,
                _ => unreachable!(),
            };
            let ang = std::f64::consts::TAU * (k as f64) * (t as f64) / (n as f64);
            re += x * ang.cos();
            im -= x * ang.sin();
        }
        let mag = (re * re + im * im).sqrt();
        mags.push(Channeled::Mono((mag * (VALUE_ONE as f64)) as i64));
    }
    let cfg = BinConfig {
        bins: 10,
        input_size: half_n,
        sample_rate: rate,
        fmin: Fraction::new(42, 1).unwrap(),
        fmax: Fraction::new(14000, 1).unwrap(),
        gamma: Fraction::new(23, 10).unwrap(),
    };
    let curve = gamma_curve(half_n, rate, 42.0, 14000.0, 2.3);
    let bounds = compute_bin_indexes(&cfg, &curve).unwrap();
    let mut binner = Binner::new(&cfg, &curve).unwrap();
    let mut bars = Vec::new();
    assert_eq!(binner.map(&mags, &mut bars), Ok(true));
    // Locate the bar whose source range holds the tone's spectrum bin.
    let hz_per_bin = (rate as f64) / 2.0 / (half_n as f64);
    let tone_bin = (tone / hz_per_bin).round() as usize;
    let mut tone_bar = None;
    for b in 0..bars.len() {
        if bounds[b] <= tone_bin && tone_bin < bounds[b + 1] {
            tone_bar = Some(b);
        }
    }
    let tone_bar = tone_bar.expect("the tone must fall inside a bar");
    let value = |c: &Channeled<i64>| match c {
        Channeled::Mono(v) => *v,
        _ => unreachable!(),
    };
    for b in 0..bars.len() {
        if b != tone_bar {
            assert!(
                value(&bars[tone_bar]) > value(&bars[b]),
                "bar {} ({}) does not dominate bar {} ({})",
                tone_bar,
                value(&bars[tone_bar]),
                b,
                value(&bars[b])
            );
        }
    }
}

use vis_rs::channeled::Channeled;
use vis_rs::framed::FramedMapper;
use vis_rs::fraction::Fraction;
use vis_rs::savitzky_golay::SavitzkyGolayConfig;

fn as_f64(f: &Fraction) -> f64 {
    (f.numer() as f64) / (f.denom() as f64)
}

#[test]
fn smoothing_rows_sum_to_one() {
    let config = SavitzkyGolayConfig { window_size: 7, degree: 2, order: 0 };
    let rows = config.compute_coefficients().unwrap();
    assert_eq!(rows.len(), 7);
    for row in &rows {
        assert_eq!(row.len(), 7);
        let sum: f64 = row.iter().map(as_f64).sum();
        assert!((sum - 1.0).abs() < 1e-9, "row sums to {}", sum);
    }
}

#[test]
fn known_center_row() {
    // The classic quadratic five-point smoother: (-3, 12, 17, 12, -3)/35.
    let config = SavitzkyGolayConfig { window_size: 5, degree: 2, order: 0 };
    let rows = config.compute_coefficients().unwrap();
    let center = &rows[2];
    let expected = [(-3i64, 35u64), (12, 35), (17, 35), (12, 35), (-3, 35)];
    for (f, (n, d)) in center.iter().zip(expected.iter()) {
        let want = Fraction::new(*n, *d as i64).unwrap();
        assert_eq!(*f, want);
    }
}

#[test]
fn linear_input_is_reproduced() {
    // Convolving any row t against a straight line y = a + b*x returns the
    // line's value at the row's own offset, because the rows come from a
    // degree >= 1 polynomial fit.
    let config = SavitzkyGolayConfig { window_size: 7, degree: 2, order: 0 };
    let rows = config.compute_coefficients().unwrap();
    let line = |x: f64| 3.0 + 0.5 * x;
    let m = 3i64;
    for (t, row) in rows.iter().enumerate() {
        let mut acc = 0.0f64;
        for (i, c) in row.iter().enumerate() {
            acc += as_f64(c) * line((i as i64 - m) as f64);
        }
        let expect = line(t as f64 - m as f64);
        assert!((acc - expect).abs() < 1e-9, "row {} gave {} want {}", t, acc, expect);
    }
}

#[test]
fn mapper_reproduces_a_line() {
    // Degree-2 smoothing of an exactly linear frame returns the frame,
    // up to the fixed-point grid.
    let config = SavitzkyGolayConfig { window_size: 5, degree: 2, order: 0 };
    let mut mapper = config.into_mapper(16).unwrap();
    let input: Vec<Channeled<i64>> = (0..16).map(|i| Channeled::Mono(1000 * i as i64)).collect();
    let mut out = Vec::new();
    assert_eq!(mapper.map(&input, &mut out), Ok(true));
    assert_eq!(out.len(), 16);
    for (i, v) in out.iter().enumerate() {
        match v {
            Channeled::Mono(x) => {
                let want = 1000 * i as i64;
                assert!((x - want).abs() <= 1, "at {}: {} vs {}", i, x, want);
            }
            _ => panic!("mono stays mono"),
        }
    }
}

#[test]
fn mapper_passes_short_frames_through_as_no_output() {
    let config = SavitzkyGolayConfig { window_size: 7, degree: 2, order: 0 };
    let mut mapper = config.into_mapper(4).unwrap();
    let input = vec![Channeled::Mono(5i64); 4];
    let mut out = Vec::new();
    assert_eq!(mapper.map(&input, &mut out), Ok(false));
}

#[test]
fn degree_zero_is_a_moving_average() {
    // The spec admits degree 0; the order-0 fit then averages the window
    // and every coefficient is 1/W.
    let config = SavitzkyGolayConfig { window_size: 5, degree: 0, order: 0 };
    let rows = config.compute_coefficients().unwrap();
    let fifth = Fraction::new(1, 5).unwrap();
    for row in &rows {
        for c in row {
            assert_eq!(*c, fifth);
        }
    }
}

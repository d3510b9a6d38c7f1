use vis_rs::channeled::Channeled;
use vis_rs::fixed::VALUE_ONE;
use vis_rs::framed::FramedMapper;
use vis_rs::window::MemoizedWindowingMapper;

/// The Blackman-Nuttall taper at index i of an n-point window, as a
/// fixed-point factor.
fn blackman_nuttall(i: usize, n: usize) -> i64 {
    let tau = std::f64::consts::TAU;
    let a0 = 0.3635819;
    let a1 = 0.4891775;
    let a2 = 0.1365995;
    let a3 = 0.0106411;
    let x = i as f64 / ((n - 1) as f64);
    let c = a0 - a1 * (tau * x).cos() + a2 * (2.0 * tau * x).cos() - a3 * (3.0 * tau * x).cos();
    (c * (VALUE_ONE as f64)).round() as i64
}

fn window_of(n: usize) -> MemoizedWindowingMapper {
    let half: Vec<i64> = (0..(n + 1) / 2).map(|i| blackman_nuttall(i, n)).collect();
    MemoizedWindowingMapper::from_half(&half, n)
}

#[test]
fn coefficients_are_symmetric() {
    for n in [2usize, 5, 16, 33] {
        let w = window_of(n);
        assert_eq!(w.table_len(), n);
        for i in 0..n {
            assert_eq!(w.coefficient(i), w.coefficient(n - 1 - i));
        }
        // The edges carry the same (small, positive) taper value.
        assert_eq!(w.coefficient(0), w.coefficient(n - 1));
    }
}

#[test]
fn windowing_scales_and_keeps_shape() {
    let mut w = window_of(8);
    let input = vec![Channeled::Stereo(VALUE_ONE, -VALUE_ONE); 8];
    let mut out = Vec::new();
    assert_eq!(w.map(&input, &mut out), Ok(true));
    assert_eq!(out.len(), 8);
    for (i, v) in out.iter().enumerate() {
        match *v {
            Channeled::Stereo(a, b) => {
                assert_eq!(a, w.coefficient(i));
                assert_eq!(b, -w.coefficient(i));
            }
            _ => unreachable!(),
        }
    }
}

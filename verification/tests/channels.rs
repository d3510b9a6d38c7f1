use vis_rs::channeled::Channeled;

#[test]
fn map_keeps_shape() {
    let m = Channeled::Mono(3i64).map(|v| v * 2);
    assert_eq!(m, Channeled::Mono(6));
    let s = Channeled::Stereo(3i64, 4).map(|v| v + 1);
    assert_eq!(s, Channeled::Stereo(4, 5));
    assert!(matches!(s, Channeled::Stereo(_, _)));
}

#[test]
fn zip_rejects_mixed_shapes() {
    assert_eq!(Channeled::Mono(1i64).zip(Channeled::Stereo(2i64, 3)), None);
    assert_eq!(
        Channeled::Stereo(1i64, 2).zip(Channeled::Stereo(3i64, 4)),
        Some(Channeled::Stereo((1, 3), (2, 4)))
    );
}

#[test]
fn invert_result_reports_first_error() {
    let ok: Channeled<Result<i64, &str>> = Channeled::Stereo(Ok(1), Ok(2));
    assert_eq!(ok.invert_result(), Ok(Channeled::Stereo(1, 2)));
    let bad: Channeled<Result<i64, &str>> = Channeled::Stereo(Err("left"), Err("right"));
    assert_eq!(bad.invert_result(), Err("left"));
}

#[test]
fn and_conjoins() {
    assert!(Channeled::Stereo(true, true).and());
    assert!(!Channeled::Stereo(true, false).and());
    assert!(Channeled::Mono(true).and());
}

use vis_rs::channeled::Channeled;
use vis_rs::errors::PipelineError;
use vis_rs::fixed::VALUE_ONE;
use vis_rs::framed::{FramedMapFn, FramedMapper, FramedMutMapFn, SampleMapper, Samples, VecSource};
use vis_rs::fraction::Fraction;
use vis_rs::level::{ClampNormalized, DiscreteLevels, FlattenChannels, NormalizeBetween};
use vis_rs::smoothing::ExponentialSmoothing;
use vis_rs::sliding::SlidingFrame;
use vis_rs::framed::Framed;

#[test]
fn clamp_is_idempotent_in_and_out_of_range() {
    let clamp = ClampNormalized;
    for v in [-5 * VALUE_ONE, -1, 0, 1234, VALUE_ONE, VALUE_ONE + 1, 9 * VALUE_ONE] {
        let once = clamp.apply(Channeled::Mono(v));
        let twice = clamp.apply(once);
        assert_eq!(once, twice);
    }
}

#[test]
fn normalize_maps_range_to_unit() {
    let norm = NormalizeBetween::new(-60 * VALUE_ONE, 0);
    // Below the floor, everything is zero; above the ceiling, full scale.
    assert_eq!(norm.apply(Channeled::Mono(-80 * VALUE_ONE)), Channeled::Mono(0));
    assert_eq!(norm.apply(Channeled::Mono(5)), Channeled::Mono(VALUE_ONE));
    // The midpoint lands at one half.
    assert_eq!(norm.apply(Channeled::Mono(-30 * VALUE_ONE)), Channeled::Mono(VALUE_ONE / 2));
}

#[test]
fn discrete_levels_quantizes() {
    let disc = DiscreteLevels::new(4);
    // 0.3 quantizes down to 0.25 of full scale.
    let v = (3 * VALUE_ONE) / 10;
    let out = disc.apply(Channeled::Mono(v));
    assert_eq!(out, Channeled::Mono(VALUE_ONE / 4));
    // Negative values collapse to zero.
    assert_eq!(disc.apply(Channeled::Mono(-7)), Channeled::Mono(0));
}

#[test]
fn flatten_averages_stereo() {
    let f = FlattenChannels;
    assert_eq!(f.apply(Channeled::Stereo(10, 20)), 15);
    assert_eq!(f.apply(Channeled::Mono(7)), 7);
}

#[test]
fn smoothing_first_tick_is_identity() {
    let alpha = Fraction::new(1, 2).unwrap();
    let mut es = ExponentialSmoothing::new(1, alpha);
    let input = vec![Channeled::Mono(100), Channeled::Stereo(10, -10)];
    let mut out = Vec::new();
    assert_eq!(es.map(&input, &mut out), Ok(true));
    assert_eq!(out, input);
}

#[test]
fn smoothing_seek_back_restores_previous_tick() {
    let alpha = Fraction::new(1, 2).unwrap();
    let mut es = ExponentialSmoothing::new(1, alpha);
    let tick1 = vec![Channeled::Mono(100), Channeled::Mono(200)];
    let tick2 = vec![Channeled::Mono(50), Channeled::Mono(0)];
    let mut out1 = Vec::new();
    let mut out2 = Vec::new();
    es.map(&tick1, &mut out1).unwrap();
    es.map(&tick2, &mut out2).unwrap();
    // Blend of 100 and 50 at alpha one half.
    assert_eq!(out2[0], Channeled::Mono(75));
    // Rewind one frame and replay: the same output must come back.
    es.seek_back(1).unwrap();
    let mut replay = Vec::new();
    es.map(&tick2, &mut replay).unwrap();
    assert_eq!(replay, out2);
    // Asking for more history than is retained fails.
    assert_eq!(es.seek_back(10), Err(PipelineError::SeekOutOfRange));
}

#[test]
fn smoothing_rejects_shape_mixing() {
    let alpha = Fraction::new(1, 2).unwrap();
    let mut es = ExponentialSmoothing::new(1, alpha);
    let tick1 = vec![Channeled::Mono(1)];
    let tick2 = vec![Channeled::Stereo(1, 2)];
    let mut out = Vec::new();
    es.map(&tick1, &mut out).unwrap();
    assert_eq!(es.map(&tick2, &mut out), Err(PipelineError::ChannelMismatch));
}

#[test]
fn sliding_frames_overlap_by_stride() {
    let data: Vec<i64> = (0..10).collect();
    let source = VecSource::new(data, 44100, 1);
    let mut framer = SlidingFrame::new(source, 4, 2);
    let mut frame = Vec::new();
    assert_eq!(framer.next_frame(&mut frame), Ok(true));
    assert_eq!(frame, vec![0, 1, 2, 3]);
    assert_eq!(framer.next_frame(&mut frame), Ok(true));
    assert_eq!(frame, vec![2, 3, 4, 5]);
    assert_eq!(framer.num_frames(), 5);
    assert_eq!(framer.full_frame_size(), 4);
}

#[test]
fn sliding_ends_cleanly() {
    let data: Vec<i64> = (0..4).collect();
    let source = VecSource::new(data, 8000, 1);
    let mut framer = SlidingFrame::new(source, 4, 4);
    let mut frame = Vec::new();
    assert_eq!(framer.next_frame(&mut frame), Ok(true));
    assert_eq!(framer.next_frame(&mut frame), Ok(false));
}

#[test]
fn per_sample_stages_lift_to_frames() {
    let mut clamp_stage = FramedMutMapFn::new(ClampNormalized);
    let input = vec![Channeled::Mono(-5i64), Channeled::Mono(VALUE_ONE + 7)];
    let mut out = Vec::new();
    assert_eq!(clamp_stage.map(&input, &mut out), Ok(true));
    assert_eq!(out, vec![Channeled::Mono(0), Channeled::Mono(VALUE_ONE)]);
    let mut flatten_stage = FramedMapFn::new(FlattenChannels);
    let stereo = vec![Channeled::Stereo(2i64, 4)];
    let mut flat = Vec::new();
    assert_eq!(flatten_stage.map(&stereo, &mut flat), Ok(true));
    assert_eq!(flat, vec![3i64]);
}

#[test]
fn vec_source_counts_samples() {
    let mut s = VecSource::new(vec![1i64, 2, 3], 100, 1);
    assert_eq!(s.num_samples(), 3);
    assert_eq!(s.next_sample(), Ok(Some(1)));
    assert_eq!(s.num_samples_remain(), 2);
}

#[test]
fn slice_copy_writes_a_prefix() {
    let mut dst = vec![0i64; 5];
    let src = vec![7i64, 8, 9];
    assert_eq!(vis_rs::util::slice_copy_from(&mut dst, &src), 3);
    assert_eq!(dst, vec![7, 8, 9, 0, 0]);
}

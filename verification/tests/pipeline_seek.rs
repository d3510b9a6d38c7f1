use vis_rs::channeled::Channeled;
use vis_rs::errors::PipelineError;
use vis_rs::framed::{Framed, FramedMapper, MappedFramed, VecSource};
use vis_rs::fraction::Fraction;
use vis_rs::sliding::SlidingFrame;
use vis_rs::smoothing::ExponentialSmoothing;
use vis_rs::spectral::{merge_channels, split_channels, zero_pad};

#[test]
fn composed_backward_seek_restores_smoothing_history() {
    // One-sample frames at stride one, so a frame seek and a sample seek
    // coincide and the replay is exact.
    let data: Vec<Channeled<i64>> = vec![
        Channeled::Mono(10),
        Channeled::Mono(20),
        Channeled::Mono(30),
    ];
    let source = VecSource::new(data, 8000, 1);
    let framer = SlidingFrame::new(source, 1, 1);
    let alpha = Fraction::new(1, 2).unwrap();
    let smoothing = ExponentialSmoothing::new(1, alpha);
    let mut stage = MappedFramed::new(framer, smoothing);
    let mut out = Vec::new();
    assert_eq!(stage.next_frame(&mut out), Ok(true));
    assert_eq!(out, vec![Channeled::Mono(10)]);
    assert_eq!(stage.next_frame(&mut out), Ok(true));
    assert_eq!(out, vec![Channeled::Mono(15)]);
    // Rewind one frame: the source steps back and the smoothing stage
    // drops its newest retained output, so the replay blends against the
    // first tick's output again.
    assert_eq!(stage.seek_frame(-1), Ok(()));
    assert_eq!(stage.next_frame(&mut out), Ok(true));
    assert_eq!(out, vec![Channeled::Mono(15)]);
    // Asking for more history than the smoothing stage retains fails.
    assert_eq!(stage.seek_frame(-10), Err(PipelineError::SeekOutOfRange));
}

#[test]
fn sliding_signals_end_of_stream_instead_of_short_frames() {
    let data: Vec<i64> = (0..6).collect();
    let source = VecSource::new(data, 8000, 1);
    let mut framer = SlidingFrame::new(source, 4, 2);
    let mut frame = Vec::new();
    assert_eq!(framer.next_frame(&mut frame), Ok(true));
    assert_eq!(frame, vec![0, 1, 2, 3]);
    assert_eq!(framer.next_frame(&mut frame), Ok(true));
    assert_eq!(frame, vec![2, 3, 4, 5]);
    // Only two samples remain buffered after the next drop: a full frame
    // can no longer be built, so the stream ends rather than emitting a
    // short frame.
    assert_eq!(framer.next_frame(&mut frame), Ok(false));
}

#[test]
fn channel_split_and_merge_round_trip() {
    let frame = vec![Channeled::Stereo(1i64, -1), Channeled::Stereo(2, -2)];
    let (mut left, mut right) = split_channels(&frame).unwrap();
    assert_eq!(left, vec![1, 2]);
    assert_eq!(right.as_ref().unwrap(), &vec![-1, -2]);
    zero_pad(&mut left, 4);
    assert_eq!(left, vec![1, 2, 0, 0]);
    zero_pad(right.as_mut().unwrap(), 4);
    let merged = merge_channels(&left, &right).unwrap();
    assert_eq!(merged[0], Channeled::Stereo(1, -1));
    assert_eq!(merged[2], Channeled::Stereo(0, 0));
    // A mono frame splits into one buffer.
    let mono = vec![Channeled::Mono(7i64)];
    let (l2, r2) = split_channels(&mono).unwrap();
    assert_eq!(l2, vec![7]);
    assert!(r2.is_none());
}

#[test]
fn channel_split_rejects_mixed_frames() {
    let mixed = vec![Channeled::Mono(1i64), Channeled::Stereo(2, 3)];
    assert_eq!(split_channels(&mixed), Err(PipelineError::ChannelMismatch));
    let left = vec![1i64, 2];
    let short_right = Some(vec![1i64]);
    assert_eq!(merge_channels(&left, &short_right), Err(PipelineError::ChannelMismatch));
}

use vis_rs::channeled::Channeled;
use vis_rs::fixed::VALUE_ONE;
use vis_rs::framed::SampleMapper;
use vis_rs::wav::{check_str_tag, ByteOrdering, RawToFixed, SampleRaw};

#[test]
fn reads_words_in_both_orders() {
    let bytes = vec![0x01u8, 0x02, 0x03, 0x04];
    assert_eq!(ByteOrdering::LittleEndian.read_u16(&bytes, 0), Some(0x0201));
    assert_eq!(ByteOrdering::BigEndian.read_u16(&bytes, 0), Some(0x0102));
    assert_eq!(ByteOrdering::LittleEndian.read_u32(&bytes, 0), Some(0x04030201));
    assert_eq!(ByteOrdering::BigEndian.read_u32(&bytes, 0), Some(0x01020304));
    assert_eq!(ByteOrdering::LittleEndian.read_u32(&bytes, 1), None);
}

#[test]
fn signed_sample_wraps_high_words() {
    let bytes = vec![0xFFu8, 0xFF, 0x00, 0x80];
    assert_eq!(ByteOrdering::LittleEndian.i16_from(&bytes, 0), Some(-1));
    assert_eq!(ByteOrdering::LittleEndian.i16_from(&bytes, 2), Some(i16::MIN));
}

#[test]
fn tags_match_exactly() {
    let bytes = b"RIFFxxxxWAVE".to_vec();
    assert!(check_str_tag(&bytes, 0, &b"RIFF".to_vec()));
    assert!(check_str_tag(&bytes, 8, &b"WAVE".to_vec()));
    assert!(!check_str_tag(&bytes, 0, &b"RIFX".to_vec()));
    assert!(!check_str_tag(&bytes, 10, &b"WAVE".to_vec()));
}

#[test]
fn raw_samples_scale_onto_the_grid() {
    let conv = RawToFixed;
    // The byte midpoints map near zero; the extremes map to about one.
    assert_eq!(conv.apply(Channeled::Mono(SampleRaw::OneByte(255))), Channeled::Mono(VALUE_ONE));
    assert_eq!(
        conv.apply(Channeled::Mono(SampleRaw::OneByte(0))),
        Channeled::Mono(-VALUE_ONE)
    );
    // A sixteen-bit word scales as 2w/65535.
    assert_eq!(conv.apply(Channeled::Mono(SampleRaw::TwoBytes(0))), Channeled::Mono(0));
    let out = conv.apply(Channeled::Stereo(SampleRaw::TwoBytes(16384), SampleRaw::TwoBytes(-16384)));
    match out {
        Channeled::Stereo(a, b) => {
            assert!((a - VALUE_ONE / 2).abs() <= 16);
            assert_eq!(a, -b);
        }
        _ => panic!("stereo in, stereo out"),
    }
}
